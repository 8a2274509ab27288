//! Constant folding over MIR.
//!
//! An operation whose operands are all constants is replaced by its result.
//! Integer, boolean and sign operations are folded here, and `%`, `&&` and
//! `||` on two float constants are never folded; other arithmetic and
//! comparison of two float constants is handed to a float folder that the
//! caller supplies, and whatever it answers is used.
use vstd::prelude::*;
use crate::hir::symbol::DefId;
use crate::hir::types::HirType;
use crate::mir::{
    BlockId, LocalId, MirBasicBlock, MirBinOp, MirConst, MirFunction, MirOperand, MirProgram,
    MirRvalue, MirStmt, MirStmtKind, MirTerminator, MirUnOp, binop_of,
};
use crate::ast::BinOp;

verus! {

/// The sign bit of an IEEE 754 binary64 value.
pub const F64_SIGN_BIT: u64 = 0x8000_0000_0000_0000u64;

/// Quotient of `x` by `d != 0`, rounded toward zero.
pub open spec fn trunc_div(x: int, d: int) -> int {
    if x >= 0 && d > 0 {
        x / d
    } else if x < 0 && d < 0 {
        (-x) / (-d)
    } else if x < 0 {
        -((-x) / d)
    } else {
        -(x / (-d))
    }
}

/// Remainder of `x` by `d != 0` with the sign of `x`.
pub open spec fn trunc_rem(x: int, d: int) -> int {
    if x >= 0 && d > 0 {
        x % d
    } else if x < 0 && d < 0 {
        -((-x) % (-d))
    } else if x < 0 {
        -((-x) % d)
    } else {
        x % (-d)
    }
}

/// Two's-complement division of `i64`s (`b != 0`): `MIN / -1` wraps to `MIN`.
pub open spec fn i64_wrapping_div(a: i64, b: i64) -> i64 {
    if a == i64::MIN && b == -1 {
        i64::MIN
    } else {
        trunc_div(a as int, b as int) as i64
    }
}

/// Two's-complement remainder of `i64`s (`b != 0`): `MIN % -1` is 0.
pub open spec fn i64_wrapping_rem(a: i64, b: i64) -> i64 {
    if a == i64::MIN && b == -1 {
        0
    } else {
        trunc_rem(a as int, b as int) as i64
    }
}

/// Folding of an operator on two integers: arithmetic wraps, division and
/// remainder by zero are left alone, comparisons give booleans, and `&&` /
/// `||` are not defined on integers.
pub open spec fn fold_i64_spec(op: MirBinOp, a: i64, b: i64) -> Option<MirConst> {
    match op {
        MirBinOp::Add => Some(MirConst::I64(vstd::wrapping::i64_specs::wrapping_add(a, b))),
        MirBinOp::Sub => Some(MirConst::I64(vstd::wrapping::i64_specs::wrapping_sub(a, b))),
        MirBinOp::Mul => Some(MirConst::I64(vstd::wrapping::i64_specs::wrapping_mul(a, b))),
        MirBinOp::Div => if b == 0 { None } else { Some(MirConst::I64(i64_wrapping_div(a, b))) },
        MirBinOp::Mod => if b == 0 { None } else { Some(MirConst::I64(i64_wrapping_rem(a, b))) },
        MirBinOp::Eq => Some(MirConst::Bool(a == b)),
        MirBinOp::Ne => Some(MirConst::Bool(a != b)),
        MirBinOp::Lt => Some(MirConst::Bool(a < b)),
        MirBinOp::Gt => Some(MirConst::Bool(a > b)),
        MirBinOp::Le => Some(MirConst::Bool(a <= b)),
        MirBinOp::Ge => Some(MirConst::Bool(a >= b)),
        MirBinOp::And => None,
        MirBinOp::Or => None,
    }
}

/// Folding of an operator on two booleans: only `==`, `!=`, `&&`, `||`.
pub open spec fn fold_bool_spec(op: MirBinOp, a: bool, b: bool) -> Option<MirConst> {
    match op {
        MirBinOp::Eq => Some(MirConst::Bool(a == b)),
        MirBinOp::Ne => Some(MirConst::Bool(a != b)),
        MirBinOp::And => Some(MirConst::Bool(a && b)),
        MirBinOp::Or => Some(MirConst::Bool(a || b)),
        _ => None,
    }
}

/// Folding of a unary operator: integer negation (wrapping, so the least
/// integer stays as it is), float negation, boolean not.  Negating a float
/// flips its sign bit.
pub open spec fn fold_unop_spec(op: MirUnOp, c: MirConst) -> Option<MirConst> {
    match (op, c) {
        (MirUnOp::Neg, MirConst::I64(n)) => Some(MirConst::I64(vstd::wrapping::i64_specs::wrapping_sub(0, n))),
        (MirUnOp::Neg, MirConst::F64(bits)) => Some(MirConst::F64(bits ^ F64_SIGN_BIT)),
        (MirUnOp::Not, MirConst::Bool(b)) => Some(MirConst::Bool(!b)),
        _ => None,
    }
}

/// The operators folded on two float constants: arithmetic other than `%`,
/// and comparisons.  `%`, `&&` and `||` are no float operations.
pub open spec fn float_foldable(op: MirBinOp) -> bool {
    !(op is Mod || op is And || op is Or)
}

/// Whether `r` is what folding `op` on `lhs` and `rhs` may give, where
/// `float_fold` answers for two float constants.  Mixed or unsupported
/// operand types give `None`.
pub open spec fn binop_folds_to<F: Fn(MirBinOp, u64, u64) -> Option<MirConst>>(
    float_fold: F,
    op: MirBinOp,
    lhs: MirConst,
    rhs: MirConst,
    r: Option<MirConst>,
) -> bool {
    match (lhs, rhs) {
        (MirConst::I64(a), MirConst::I64(b)) => r == fold_i64_spec(op, a, b),
        (MirConst::F64(a), MirConst::F64(b)) => if float_foldable(op) {
            call_ensures(float_fold, (op, a, b), r)
        } else {
            r is None
        },
        (MirConst::Bool(a), MirConst::Bool(b)) => r == fold_bool_spec(op, a, b),
        _ => r is None,
    }
}

proof fn lemma_trunc_div_bounds(a: i64, b: i64)
    requires
        b != 0,
        !(a == i64::MIN && b == -1),
    ensures
        i64::MIN <= trunc_div(a as int, b as int) <= i64::MAX,
{
    let x = a as int;
    let d = b as int;
    if x >= 0 && d > 0 {
        assert(0 <= x / d <= x) by (nonlinear_arith)
            requires x >= 0, d > 0;
    } else if x < 0 && d < 0 {
        if d == -1 {
            assert((-x) / 1 == -x);
        } else {
            assert(0 <= (-x) / (-d) <= (-x) / 2) by (nonlinear_arith)
                requires -x > 0, -d >= 2;
            assert((-x) / 2 <= i64::MAX) by (nonlinear_arith)
                requires -x <= 0x8000_0000_0000_0000;
        }
    } else if x < 0 {
        assert(0 <= (-x) / d <= -x) by (nonlinear_arith)
            requires -x > 0, d > 0;
    } else {
        assert(0 <= x / (-d) <= x) by (nonlinear_arith)
            requires x >= 0, -d > 0;
    }
}

proof fn lemma_trunc_rem_bounds(a: i64, b: i64)
    requires
        b != 0,
        !(a == i64::MIN && b == -1),
    ensures
        i64::MIN <= trunc_rem(a as int, b as int) <= i64::MAX,
{
    let x = a as int;
    let d = b as int;
    if x >= 0 && d > 0 {
        assert(0 <= x % d < d) by (nonlinear_arith)
            requires d > 0;
    } else if x < 0 && d < 0 {
        assert(0 <= (-x) % (-d) < -d) by (nonlinear_arith)
            requires -d > 0;
    } else if x < 0 {
        assert(0 <= (-x) % d < d) by (nonlinear_arith)
            requires d > 0;
    } else {
        assert(0 <= x % (-d) < -d) by (nonlinear_arith)
            requires -d > 0;
    }
}

fn fold_i64(op: MirBinOp, a: i64, b: i64) -> (r: Option<MirConst>)
    ensures
        r == fold_i64_spec(op, a, b),
{
    match op {
        MirBinOp::Add => {
            let x = a.wrapping_add(b);
            assert(x == vstd::wrapping::i64_specs::wrapping_add(a, b));
            Some(MirConst::I64(x))
        },
        MirBinOp::Sub => {
            let x = a.wrapping_sub(b);
            assert(x == vstd::wrapping::i64_specs::wrapping_sub(a, b));
            Some(MirConst::I64(x))
        },
        MirBinOp::Mul => {
            let x = a.wrapping_mul(b);
            assert(x == vstd::wrapping::i64_specs::wrapping_mul(a, b));
            Some(MirConst::I64(x))
        },
        MirBinOp::Div => {
            if b == 0 {
                None
            } else if a == i64::MIN && b == -1 {
                Some(MirConst::I64(i64::MIN))
            } else {
                let q = a.checked_div(b);
                assert(q == Some(trunc_div(a as int, b as int) as i64)) by {
                    lemma_trunc_div_bounds(a, b);
                }
                match q {
                    Some(q) => Some(MirConst::I64(q)),
                    None => None,
                }
            }
        },
        MirBinOp::Mod => {
            if b == 0 {
                None
            } else if a == i64::MIN && b == -1 {
                Some(MirConst::I64(0))
            } else {
                let q = a.checked_rem(b);
                assert(q == Some(trunc_rem(a as int, b as int) as i64)) by {
                    lemma_trunc_rem_bounds(a, b);
                }
                match q {
                    Some(q) => Some(MirConst::I64(q)),
                    None => None,
                }
            }
        },
        MirBinOp::Eq => Some(MirConst::Bool(a == b)),
        MirBinOp::Ne => Some(MirConst::Bool(a != b)),
        MirBinOp::Lt => Some(MirConst::Bool(a < b)),
        MirBinOp::Gt => Some(MirConst::Bool(a > b)),
        MirBinOp::Le => Some(MirConst::Bool(a <= b)),
        MirBinOp::Ge => Some(MirConst::Bool(a >= b)),
        MirBinOp::And => None,
        MirBinOp::Or => None,
    }
}

fn fold_bool(op: MirBinOp, a: bool, b: bool) -> (r: Option<MirConst>)
    ensures
        r == fold_bool_spec(op, a, b),
{
    match op {
        MirBinOp::Eq => Some(MirConst::Bool(a == b)),
        MirBinOp::Ne => Some(MirConst::Bool(a != b)),
        MirBinOp::And => Some(MirConst::Bool(a && b)),
        MirBinOp::Or => Some(MirConst::Bool(a || b)),
        MirBinOp::Add | MirBinOp::Sub | MirBinOp::Mul | MirBinOp::Div | MirBinOp::Mod
        | MirBinOp::Lt | MirBinOp::Gt | MirBinOp::Le | MirBinOp::Ge => None,
    }
}

impl MirConst {
    /// Fold a binary operation on two constants; `None` where the operation
    /// is not defined for the operand types (such as `%` on booleans) or
    /// is left for run time (division by zero).
    pub fn fold_binop<F: Fn(MirBinOp, u64, u64) -> Option<MirConst>>(
        op: MirBinOp,
        lhs: &MirConst,
        rhs: &MirConst,
        float_fold: &F,
    ) -> (r: Option<MirConst>)
        requires
            forall|o: MirBinOp, a: u64, b: u64| call_requires(*float_fold, (o, a, b)),
        ensures
            binop_folds_to(*float_fold, op, *lhs, *rhs, r),
    {
        match (lhs, rhs) {
            (MirConst::I64(a), MirConst::I64(b)) => fold_i64(op, *a, *b),
            (MirConst::F64(a), MirConst::F64(b)) => match op {
                MirBinOp::Mod | MirBinOp::And | MirBinOp::Or => None,
                _ => float_fold(op, *a, *b),
            },
            (MirConst::Bool(a), MirConst::Bool(b)) => fold_bool(op, *a, *b),
            _ => None,
        }
    }

    /// Fold a unary operation on a constant.
    pub fn fold_unop(op: MirUnOp, operand: &MirConst) -> (r: Option<MirConst>)
        ensures
            r == fold_unop_spec(op, *operand),
    {
        match (op, operand) {
            (MirUnOp::Neg, MirConst::I64(n)) => {
                let x = 0i64.wrapping_sub(*n);
                assert(x == vstd::wrapping::i64_specs::wrapping_sub(0, *n));
                Some(MirConst::I64(x))
            },
            (MirUnOp::Neg, MirConst::F64(bits)) => Some(MirConst::F64(*bits ^ F64_SIGN_BIT)),
            (MirUnOp::Not, MirConst::Bool(b)) => Some(MirConst::Bool(!*b)),
            _ => None,
        }
    }
}

/// The constant an operand holds, if it is one.
pub open spec fn operand_const_spec(op: MirOperand) -> Option<MirConst> {
    match op {
        MirOperand::Const(c) => Some(c),
        MirOperand::Local(_) => None,
    }
}

fn operand_const(operand: &MirOperand) -> (r: Option<MirConst>)
    ensures
        r == operand_const_spec(*operand),
{
    match operand {
        MirOperand::Const(c) => Some(*c),
        MirOperand::Local(_) => None,
    }
}

/// Whether `new` is what folding may make of `old`: a binary or unary
/// operation on constants becomes the use of its folded result where there
/// is one; everything else stays as it is.
pub open spec fn rvalue_folds_to<F: Fn(MirBinOp, u64, u64) -> Option<MirConst>>(
    float_fold: F,
    old: MirRvalue,
    new: MirRvalue,
) -> bool {
    match old {
        MirRvalue::Binary { op, lhs: MirOperand::Const(l), rhs: MirOperand::Const(r) } => exists|res: Option<MirConst>|
            #![trigger binop_folds_to(float_fold, op, l, r, res)]
            binop_folds_to(float_fold, op, l, r, res) && new == match res {
                Some(c) => MirRvalue::Use(MirOperand::Const(c)),
                None => old,
            },
        MirRvalue::Unary { op, operand: MirOperand::Const(c) } => new == match fold_unop_spec(op, c) {
            Some(c2) => MirRvalue::Use(MirOperand::Const(c2)),
            None => old,
        },
        _ => new == old,
    }
}

/// Whether statement `new` is statement `old` with its rvalue folded.
pub open spec fn stmt_folds_to<F: Fn(MirBinOp, u64, u64) -> Option<MirConst>>(
    float_fold: F,
    old: MirStmt,
    new: MirStmt,
) -> bool {
    match old.kind {
        MirStmtKind::Assign { local, rvalue } => new.kind matches MirStmtKind::Assign { local: l2, rvalue: r2 }
            && l2 == local && rvalue_folds_to(float_fold, rvalue, r2),
        _ => new == old,
    }
}

/// Whether block `new` is block `old` with each statement folded.
pub open spec fn block_folds_to<F: Fn(MirBinOp, u64, u64) -> Option<MirConst>>(
    float_fold: F,
    old: MirBasicBlock,
    new: MirBasicBlock,
) -> bool {
    &&& new.id == old.id
    &&& new.name == old.name
    &&& new.terminator == old.terminator
    &&& new.stmts@.len() == old.stmts@.len()
    &&& forall|s: int| 0 <= s < old.stmts@.len() ==> stmt_folds_to(float_fold, #[trigger] old.stmts@[s], new.stmts@[s])
}

/// Whether function `new` is function `old` with every block folded and
/// everything else unchanged.
pub open spec fn function_folds_to<F: Fn(MirBinOp, u64, u64) -> Option<MirConst>>(
    float_fold: F,
    old: MirFunction,
    new: MirFunction,
) -> bool {
    &&& new.def_id == old.def_id
    &&& new.name == old.name
    &&& new.params == old.params
    &&& new.return_type == old.return_type
    &&& new.locals == old.locals
    &&& new.param_locals == old.param_locals
    &&& new.start_block == old.start_block
    &&& new.blocks@.len() == old.blocks@.len()
    &&& forall|b: int| 0 <= b < old.blocks@.len() ==> block_folds_to(float_fold, #[trigger] old.blocks@[b], new.blocks@[b])
}

/// Constant folding over one function.
pub struct ConstantFolder;

impl ConstantFolder {
    /// Fold every assignment of the function.
    pub fn run<F: Fn(MirBinOp, u64, u64) -> Option<MirConst>>(func: &mut MirFunction, float_fold: &F)
        requires
            forall|o: MirBinOp, a: u64, b: u64| call_requires(*float_fold, (o, a, b)),
        ensures
            function_folds_to(*float_fold, *old(func), *final(func)),
    {
        let ghost orig = *func;
        let nb = func.blocks.len();
        let mut bi: usize = 0;
        while bi < nb
            invariant
                forall|o: MirBinOp, a: u64, b: u64| call_requires(*float_fold, (o, a, b)),
                bi <= nb,
                nb == orig.blocks@.len(),
                func.def_id == orig.def_id,
                func.name == orig.name,
                func.params == orig.params,
                func.return_type == orig.return_type,
                func.locals == orig.locals,
                func.param_locals == orig.param_locals,
                func.start_block == orig.start_block,
                func.blocks@.len() == nb,
                forall|b: int| 0 <= b < bi ==> block_folds_to(*float_fold, #[trigger] orig.blocks@[b], func.blocks@[b]),
                forall|b: int| bi <= b < nb ==> #[trigger] func.blocks@[b] == orig.blocks@[b],
            decreases nb - bi,
        {
            let mut block = MirBasicBlock {
                id: BlockId(0),
                name: String::new(),
                stmts: Vec::new(),
                terminator: MirTerminator::Unreachable,
            };
            func.blocks.set_and_swap(bi, &mut block);
            assert(block == orig.blocks@[bi as int]);
            Self::run_block(&mut block, float_fold, Ghost(orig), Ghost(bi as int));
            func.blocks.set(bi, block);
            bi = bi + 1;
        }
    }

    fn run_block<F: Fn(MirBinOp, u64, u64) -> Option<MirConst>>(
        block: &mut MirBasicBlock,
        float_fold: &F,
        Ghost(orig): Ghost<MirFunction>,
        Ghost(bi): Ghost<int>,
    )
        requires
            forall|o: MirBinOp, a: u64, b: u64| call_requires(*float_fold, (o, a, b)),
            0 <= bi < orig.blocks@.len(),
            *old(block) == orig.blocks@[bi],
        ensures
            block_folds_to(*float_fold, *old(block), *final(block)),
    {
        let ghost start = *block;
        let ns = block.stmts.len();
        let mut si: usize = 0;
        while si < ns
            invariant
                forall|o: MirBinOp, a: u64, b: u64| call_requires(*float_fold, (o, a, b)),
                0 <= bi < orig.blocks@.len(),
                start == orig.blocks@[bi],
                si <= ns,
                ns == start.stmts@.len(),
                block.id == start.id,
                block.name == start.name,
                block.terminator == start.terminator,
                block.stmts@.len() == ns,
                forall|s: int| 0 <= s < si ==> stmt_folds_to(*float_fold, #[trigger] start.stmts@[s], block.stmts@[s]),
                forall|s: int| si <= s < ns ==> #[trigger] block.stmts@[s] == start.stmts@[s],
            decreases ns - si,
        {
            let mut stmt = MirStmt {
                kind: MirStmtKind::LocalDecl { local: LocalId(0), ty: HirType::Unit, mutable: false },
            };
            block.stmts.set_and_swap(si, &mut stmt);
            assert(stmt == orig.blocks@[bi].stmts@[si as int]);
            let folded = match stmt.kind {
                MirStmtKind::Assign { local, rvalue } => {
                    let r = Self::fold_rvalue(rvalue, float_fold);
                    MirStmt { kind: MirStmtKind::Assign { local, rvalue: r } }
                },
                other => MirStmt { kind: other },
            };
            block.stmts.set(si, folded);
            si = si + 1;
        }
    }

    /// Fold one rvalue.
    fn fold_rvalue<F: Fn(MirBinOp, u64, u64) -> Option<MirConst>>(rvalue: MirRvalue, float_fold: &F) -> (r: MirRvalue)
        requires
            forall|o: MirBinOp, a: u64, b: u64| call_requires(*float_fold, (o, a, b)),
        ensures
            rvalue_folds_to(*float_fold, rvalue, r),
    {
        match rvalue {
            MirRvalue::Binary { op, lhs, rhs } => {
                let (l, r) = match (operand_const(&lhs), operand_const(&rhs)) {
                    (Some(l), Some(r)) => (l, r),
                    _ => return MirRvalue::Binary { op, lhs, rhs },
                };
                let res = MirConst::fold_binop(op, &l, &r, float_fold);
                match res {
                    Some(c) => MirRvalue::Use(MirOperand::Const(c)),
                    None => MirRvalue::Binary { op, lhs, rhs },
                }
            },
            MirRvalue::Unary { op, operand } => {
                if let Some(val) = operand_const(&operand) {
                    if let Some(c) = MirConst::fold_unop(op, &val) {
                        return MirRvalue::Use(MirOperand::Const(c));
                    }
                }
                MirRvalue::Unary { op, operand }
            },
            other => other,
        }
    }
}

/// Run all MIR optimizations (constant folding) on every function.
pub fn optimize<F: Fn(MirBinOp, u64, u64) -> Option<MirConst>>(program: &mut MirProgram, float_fold: &F)
    requires
        forall|o: MirBinOp, a: u64, b: u64| call_requires(*float_fold, (o, a, b)),
    ensures
        final(program).symbols == old(program).symbols,
        final(program).structs == old(program).structs,
        final(program).enums == old(program).enums,
        final(program).functions@.len() == old(program).functions@.len(),
        forall|i: int| 0 <= i < old(program).functions@.len() ==> function_folds_to(
            *float_fold,
            #[trigger] old(program).functions@[i],
            final(program).functions@[i],
        ),
{
    let ghost orig = *program;
    let n = program.functions.len();
    let mut i: usize = 0;
    while i < n
        invariant
            forall|o: MirBinOp, a: u64, b: u64| call_requires(*float_fold, (o, a, b)),
            i <= n,
            n == orig.functions@.len(),
            program.symbols == orig.symbols,
            program.structs == orig.structs,
            program.enums == orig.enums,
            program.functions@.len() == n,
            forall|k: int| 0 <= k < i ==> function_folds_to(*float_fold, #[trigger] orig.functions@[k], program.functions@[k]),
            forall|k: int| i <= k < n ==> #[trigger] program.functions@[k] == orig.functions@[k],
        decreases n - i,
    {
        let mut func = MirFunction {
            def_id: DefId(0),
            name: crate::hir::symbol::SymbolId(0),
            params: Vec::new(),
            return_type: HirType::Unit,
            locals: Vec::new(),
            param_locals: Vec::new(),
            blocks: Vec::new(),
            start_block: BlockId(0),
        };
        program.functions.set_and_swap(i, &mut func);
        assert(func == orig.functions@[i as int]);
        ConstantFolder::run(&mut func, float_fold);
        program.functions.set(i, func);
        i = i + 1;
    }
}

/// Folding two integer constants computes the operation on their values:
/// a comparison gives the comparison of the two integers (so `2 <= 2`
/// folds to `true`); `+`, `-` and `*` give the sum, difference and product
/// whenever it fits in an `i64`; `/` and `%` of a non-negative integer by a
/// positive one give the quotient and the remainder; division by zero and
/// `&&` / `||` on integers are not folded.
pub proof fn law_fold_integers<F: Fn(MirBinOp, u64, u64) -> Option<MirConst>>(
    f: F,
    op: MirBinOp,
    a: i64,
    b: i64,
    r: Option<MirConst>,
)
    requires
        binop_folds_to(f, op, MirConst::I64(a), MirConst::I64(b), r),
    ensures
        op is Eq ==> r == Some(MirConst::Bool(a == b)),
        op is Ne ==> r == Some(MirConst::Bool(a != b)),
        op is Lt ==> r == Some(MirConst::Bool(a < b)),
        op is Gt ==> r == Some(MirConst::Bool(b < a)),
        op is Le ==> r == Some(MirConst::Bool(!(b < a))),
        op is Ge ==> r == Some(MirConst::Bool(!(a < b))),
        op is Add && i64::MIN <= a + b <= i64::MAX ==> r == Some(MirConst::I64((a + b) as i64)),
        op is Sub && i64::MIN <= a - b <= i64::MAX ==> r == Some(MirConst::I64((a - b) as i64)),
        op is Mul && i64::MIN <= a * b <= i64::MAX ==> r == Some(MirConst::I64((a * b) as i64)),
        (op is Div || op is Mod) && b == 0 ==> r is None,
        op is Div && a >= 0 && b > 0 ==> r == Some(MirConst::I64((a / b) as i64)),
        op is Mod && a >= 0 && b > 0 ==> r == Some(MirConst::I64((a % b) as i64)),
        op is And || op is Or ==> r is None,
{
    if op is Mul && i64::MIN <= a * b <= i64::MAX {
        let p = a * b;
        assert(vstd::wrapping::i64_specs::signed_crop(p) == p as i64) by {
            assert(p % 0x1_0000_0000_0000_0000 == if p >= 0 { p } else { p + 0x1_0000_0000_0000_0000 });
        }
    }
}

/// Folding two boolean constants: `&&`, `||`, `==` and `!=` give the
/// logical operation on the two values; nothing else is folded.
pub proof fn law_fold_booleans<F: Fn(MirBinOp, u64, u64) -> Option<MirConst>>(
    f: F,
    op: MirBinOp,
    a: bool,
    b: bool,
    r: Option<MirConst>,
)
    requires
        binop_folds_to(f, op, MirConst::Bool(a), MirConst::Bool(b), r),
    ensures
        op is And ==> r == Some(MirConst::Bool(a && b)),
        op is Or ==> r == Some(MirConst::Bool(a || b)),
        op is Eq ==> r == Some(MirConst::Bool(a == b)),
        op is Ne ==> r == Some(MirConst::Bool(a != b)),
        !(op is And || op is Or || op is Eq || op is Ne) ==> r is None,
{
}

/// Folding a unary operation: negating an integer gives its negation
/// whenever that fits (the least integer stays as it is), and `!` on a
/// boolean gives its negation; `!` on a number and `-` on a boolean are not
/// folded.
pub proof fn law_fold_unary(op: MirUnOp, c: MirConst)
    ensures
        op is Neg ==> (c matches MirConst::I64(n) ==> fold_unop_spec(op, c) == Some(MirConst::I64(
            if n == i64::MIN { n } else { -n as i64 },
        ))),
        op is Not ==> (c matches MirConst::Bool(b) ==> fold_unop_spec(op, c) == Some(MirConst::Bool(!b))),
        op is Not && !(c is Bool) ==> fold_unop_spec(op, c) is None,
        op is Neg && c is Bool ==> fold_unop_spec(op, c) is None,
{
}

/// A source comparison lowered to MIR and folded on two integers gives the
/// comparison of the integers, so lowering and folding keep its meaning.
pub proof fn law_lowered_comparison(op: BinOp, a: i64, b: i64)
    ensures
        op is Eq ==> fold_i64_spec(binop_of(op), a, b) == Some(MirConst::Bool(a == b)),
        op is Ne ==> fold_i64_spec(binop_of(op), a, b) == Some(MirConst::Bool(a != b)),
        op is Lt ==> fold_i64_spec(binop_of(op), a, b) == Some(MirConst::Bool(a < b)),
        op is Gt ==> fold_i64_spec(binop_of(op), a, b) == Some(MirConst::Bool(b < a)),
        op is Le ==> fold_i64_spec(binop_of(op), a, b) == Some(MirConst::Bool(!(b < a))),
        op is Ge ==> fold_i64_spec(binop_of(op), a, b) == Some(MirConst::Bool(!(a < b))),
{
}

proof fn lemma_trunc_div_rem(x: int, d: int)
    requires
        d != 0,
    ensures
        trunc_div(x, d) * d + trunc_rem(x, d) == x,
        x >= 0 ==> 0 <= trunc_rem(x, d) < (if d > 0 { d } else { -d }),
        x < 0 ==> -(if d > 0 { d } else { -d }) < trunc_rem(x, d) <= 0,
{
    if x >= 0 && d > 0 {
        assert(x / d * d + x % d == x && 0 <= x % d < d) by (nonlinear_arith)
            requires x >= 0 && d > 0;
    } else if x < 0 && d < 0 {
        let (y, e) = (-x, -d);
        assert(y / e * e + y % e == y && 0 <= y % e < e) by (nonlinear_arith)
            requires y > 0 && e > 0;
        assert(trunc_div(x, d) * d == -((y / e) * e)) by (nonlinear_arith)
            requires trunc_div(x, d) == y / e, d == -e;
    } else if x < 0 {
        let y = -x;
        assert(y / d * d + y % d == y && 0 <= y % d < d) by (nonlinear_arith)
            requires y > 0 && d > 0;
        assert(trunc_div(x, d) * d == -((y / d) * d)) by (nonlinear_arith)
            requires trunc_div(x, d) == -(y / d);
    } else {
        let e = -d;
        assert(x / e * e + x % e == x && 0 <= x % e < e) by (nonlinear_arith)
            requires x >= 0 && e > 0;
        assert(trunc_div(x, d) * d == (x / e) * e) by (nonlinear_arith)
            requires trunc_div(x, d) == -(x / e), d == -e;
    }
}

/// Folding `/` and `%` on the same two integers gives a quotient and a
/// remainder that make up the dividend: `q * b + r == a`, with the
/// remainder smaller than the divisor and of the sign of the dividend
/// (the quotient rounds toward zero); `i64::MIN / -1` wraps to `i64::MIN`
/// with remainder 0.
pub proof fn law_fold_division<F: Fn(MirBinOp, u64, u64) -> Option<MirConst>>(
    f: F,
    a: i64,
    b: i64,
    q: Option<MirConst>,
    r: Option<MirConst>,
)
    requires
        binop_folds_to(f, MirBinOp::Div, MirConst::I64(a), MirConst::I64(b), q),
        binop_folds_to(f, MirBinOp::Mod, MirConst::I64(a), MirConst::I64(b), r),
        b != 0,
    ensures
        q matches Some(MirConst::I64(qv)) && r matches Some(MirConst::I64(rv)) && (if a == i64::MIN && b == -1 {
            qv == i64::MIN && rv == 0
        } else {
            &&& qv * b + rv == a
            &&& a >= 0 ==> 0 <= rv < (if b > 0 { b as int } else { -b })
            &&& a < 0 ==> -(if b > 0 { b as int } else { -b }) < rv <= 0
        }),
{
    if !(a == i64::MIN && b == -1) {
        lemma_trunc_div_rem(a as int, b as int);
        lemma_trunc_div_bounds(a, b);
    }
}

} // verus!
