use stnx::ast::{AugOp, BinOp, UnOp};
use stnx::error::CompilerError;
use stnx::hir::{DefId, HirType, SymbolId, SymbolInterner};
use stnx::mir::opt::{optimize, ConstantFolder};
use stnx::mir::{
    BlockId, LocalId, MirBasicBlock, MirBinOp, MirConst, MirFunction, MirLocal, MirOperand, MirProgram,
    MirRvalue, MirStmt, MirStmtKind, MirTerminator, MirUnOp,
};

fn fold_float(op: MirBinOp, a: u64, b: u64) -> Option<MirConst> {
    let (x, y) = (f64::from_bits(a), f64::from_bits(b));
    match op {
        MirBinOp::Add => Some(MirConst::F64((x + y).to_bits())),
        MirBinOp::Sub => Some(MirConst::F64((x - y).to_bits())),
        MirBinOp::Mul => Some(MirConst::F64((x * y).to_bits())),
        MirBinOp::Div => Some(MirConst::F64((x / y).to_bits())),
        MirBinOp::Lt => Some(MirConst::Bool(x < y)),
        MirBinOp::Eq => Some(MirConst::Bool(x == y)),
        _ => None,
    }
}

fn i(n: i64) -> MirConst {
    MirConst::I64(n)
}

fn fold(op: MirBinOp, a: MirConst, b: MirConst) -> Option<MirConst> {
    MirConst::fold_binop(op, &a, &b, &fold_float)
}

#[test]
fn fold_integer_arithmetic_wraps() {
    assert_eq!(fold(MirBinOp::Add, i(2), i(3)), Some(i(5)));
    assert_eq!(fold(MirBinOp::Add, i(i64::MAX), i(1)), Some(i(i64::MIN)));
    assert_eq!(fold(MirBinOp::Sub, i(i64::MIN), i(1)), Some(i(i64::MAX)));
    assert_eq!(fold(MirBinOp::Mul, i(-4), i(6)), Some(i(-24)));
}

#[test]
fn fold_integer_division_truncates() {
    assert_eq!(fold(MirBinOp::Div, i(7), i(2)), Some(i(3)));
    assert_eq!(fold(MirBinOp::Div, i(-7), i(2)), Some(i(-3)));
    assert_eq!(fold(MirBinOp::Mod, i(-7), i(2)), Some(i(-1)));
    assert_eq!(fold(MirBinOp::Mod, i(7), i(-2)), Some(i(1)));
    assert_eq!(fold(MirBinOp::Div, i(i64::MIN), i(-1)), Some(i(i64::MIN)));
    assert_eq!(fold(MirBinOp::Mod, i(i64::MIN), i(-1)), Some(i(0)));
}

#[test]
fn fold_division_by_zero_is_left_alone() {
    assert_eq!(fold(MirBinOp::Div, i(1), i(0)), None);
    assert_eq!(fold(MirBinOp::Mod, i(1), i(0)), None);
}

#[test]
fn fold_comparisons_and_logic() {
    assert_eq!(fold(MirBinOp::Lt, i(1), i(2)), Some(MirConst::Bool(true)));
    assert_eq!(fold(MirBinOp::Ge, i(1), i(2)), Some(MirConst::Bool(false)));
    assert_eq!(fold(MirBinOp::And, i(1), i(2)), None);
    assert_eq!(fold(MirBinOp::Or, i(0), i(5)), None);
    let t = MirConst::Bool(true);
    let f = MirConst::Bool(false);
    assert_eq!(fold(MirBinOp::And, t, f), Some(f));
    assert_eq!(fold(MirBinOp::Ne, t, f), Some(t));
    assert_eq!(fold(MirBinOp::Add, t, f), None);
    assert_eq!(fold(MirBinOp::Lt, t, f), None);
}

#[test]
fn fold_mixed_types_is_none() {
    assert_eq!(fold(MirBinOp::Add, i(1), MirConst::Bool(true)), None);
    assert_eq!(fold(MirBinOp::Add, i(1), MirConst::F64(1.0f64.to_bits())), None);
}

#[test]
fn fold_floats_uses_the_float_folder() {
    let a = MirConst::F64(1.5f64.to_bits());
    let b = MirConst::F64(2.25f64.to_bits());
    assert_eq!(fold(MirBinOp::Add, a, b), Some(MirConst::F64(3.75f64.to_bits())));
    assert_eq!(fold(MirBinOp::Lt, a, b), Some(MirConst::Bool(true)));
    assert_eq!(fold(MirBinOp::Mod, a, b), None);
}

#[test]
fn fold_unary() {
    assert_eq!(MirConst::fold_unop(MirUnOp::Neg, &i(5)), Some(i(-5)));
    assert_eq!(MirConst::fold_unop(MirUnOp::Neg, &i(i64::MIN)), Some(i(i64::MIN)));
    assert_eq!(MirConst::fold_unop(MirUnOp::Not, &MirConst::Bool(true)), Some(MirConst::Bool(false)));
    assert_eq!(
        MirConst::fold_unop(MirUnOp::Neg, &MirConst::F64(2.5f64.to_bits())),
        Some(MirConst::F64((-2.5f64).to_bits()))
    );
    assert_eq!(MirConst::fold_unop(MirUnOp::Not, &i(1)), None);
    assert_eq!(MirConst::fold_unop(MirUnOp::Neg, &MirConst::Bool(true)), None);
}

#[test]
fn operator_conversions() {
    assert_eq!(MirBinOp::from(BinOp::Mod), MirBinOp::Mod);
    assert_eq!(MirBinOp::from(AugOp::Mul), MirBinOp::Mul);
    assert_eq!(MirUnOp::from(UnOp::Not), MirUnOp::Not);
}

fn assign(local: u32, rvalue: MirRvalue) -> MirStmt {
    MirStmt { kind: MirStmtKind::Assign { local: LocalId(local), rvalue } }
}

fn function(blocks: Vec<MirBasicBlock>, locals: Vec<MirLocal>, params: Vec<LocalId>, start: u32) -> MirFunction {
    MirFunction {
        def_id: DefId(0),
        name: SymbolId(0),
        params: vec![],
        return_type: HirType::I64,
        locals,
        param_locals: params,
        blocks,
        start_block: BlockId(start),
    }
}

fn block(id: u32, name: &str, stmts: Vec<MirStmt>, terminator: MirTerminator) -> MirBasicBlock {
    MirBasicBlock { id: BlockId(id), name: name.to_string(), stmts, terminator }
}

fn local(id: u32) -> MirLocal {
    MirLocal { id: LocalId(id), ty: HirType::I64, name: SymbolId(0), mutable: false }
}

fn program(functions: Vec<MirFunction>) -> MirProgram {
    let mut symbols = SymbolInterner::default();
    symbols.intern("main");
    MirProgram { functions, symbols, structs: vec![], enums: vec![] }
}

#[test]
fn constant_folder_rewrites_assignments() {
    let stmts = vec![
        assign(0, MirRvalue::Binary {
            op: MirBinOp::Mul,
            lhs: MirOperand::Const(i(6)),
            rhs: MirOperand::Const(i(7)),
        }),
        assign(1, MirRvalue::Binary { op: MirBinOp::Add, lhs: MirOperand::Local(LocalId(0)), rhs: MirOperand::Const(i(1)) }),
        assign(2, MirRvalue::Unary { op: MirUnOp::Neg, operand: MirOperand::Const(i(3)) }),
    ];
    let mut f = function(
        vec![block(0, "entry", stmts, MirTerminator::Return(Some(MirOperand::Local(LocalId(1)))))],
        vec![local(0), local(1), local(2)],
        vec![],
        0,
    );
    ConstantFolder::run(&mut f, &fold_float);
    let s = &f.blocks[0].stmts;
    assert!(matches!(&s[0].kind, MirStmtKind::Assign { local: LocalId(0), rvalue: MirRvalue::Use(MirOperand::Const(MirConst::I64(42))) }));
    assert!(matches!(&s[1].kind, MirStmtKind::Assign { rvalue: MirRvalue::Binary { op: MirBinOp::Add, .. }, .. }));
    assert!(matches!(&s[2].kind, MirStmtKind::Assign { rvalue: MirRvalue::Use(MirOperand::Const(MirConst::I64(-3))), .. }));
}

#[test]
fn optimize_folds_every_function() {
    let f1 = function(
        vec![block(0, "entry", vec![assign(0, MirRvalue::Binary {
            op: MirBinOp::Lt,
            lhs: MirOperand::Const(i(1)),
            rhs: MirOperand::Const(i(2)),
        })], MirTerminator::Return(None))],
        vec![local(0)],
        vec![],
        0,
    );
    let f2 = function(
        vec![block(0, "entry", vec![assign(0, MirRvalue::Binary {
            op: MirBinOp::Div,
            lhs: MirOperand::Const(i(1)),
            rhs: MirOperand::Const(i(0)),
        })], MirTerminator::Return(None))],
        vec![local(0)],
        vec![],
        0,
    );
    let mut p = program(vec![f1, f2]);
    optimize(&mut p, &fold_float);
    assert!(matches!(&p.functions[0].blocks[0].stmts[0].kind,
        MirStmtKind::Assign { rvalue: MirRvalue::Use(MirOperand::Const(MirConst::Bool(true))), .. }));
    assert!(matches!(&p.functions[1].blocks[0].stmts[0].kind,
        MirStmtKind::Assign { rvalue: MirRvalue::Binary { op: MirBinOp::Div, .. }, .. }));
}

#[test]
fn verify_accepts_well_formed_program() {
    let f = function(
        vec![
            block(0, "entry", vec![assign(0, MirRvalue::Use(MirOperand::Const(i(1))))], MirTerminator::Goto { target: BlockId(1) }),
            block(1, "exit", vec![], MirTerminator::Return(Some(MirOperand::Local(LocalId(0))))),
        ],
        vec![local(0)],
        vec![LocalId(0)],
        0,
    );
    assert!(program(vec![f]).verify().is_ok());
}

#[test]
fn verify_reports_every_failure_in_order() {
    let f = function(
        vec![
            block(0, "entry", vec![assign(0, MirRvalue::Use(MirOperand::Local(LocalId(9))))], MirTerminator::Goto { target: BlockId(5) }),
            block(1, "dead", vec![], MirTerminator::Unreachable),
            block(2, "sw", vec![], MirTerminator::SwitchInt {
                scrutinee: MirOperand::Const(MirConst::Bool(true)),
                ty: HirType::Bool,
                branches: vec![(1, BlockId(0)), (0, BlockId(8))],
                else_target: BlockId(7),
            }),
        ],
        vec![local(0)],
        vec![LocalId(0), LocalId(4)],
        3,
    );
    let errs = program(vec![f]).verify().unwrap_err();
    let msgs: Vec<String> = errs.iter().map(|e| e.message.clone()).collect();
    assert_eq!(
        msgs,
        vec![
            "block `dead` has no terminator (Unreachable placeholder remains)",
            "Goto references non-existent block BlockId(5)",
            "SwitchInt else_target references non-existent block BlockId(7)",
            "SwitchInt branch references non-existent block BlockId(8)",
            "operand references undefined local LocalId(9)",
            "parameter 1 local LocalId(4) not found in locals",
            "start_block BlockId(3) does not exist in function body",
        ]
    );
    assert_eq!(errs[1].location, Some(("main".to_string(), "entry".to_string())));
    assert_eq!(errs[5].location, Some(("main".to_string(), "entry".to_string())));
    assert_eq!(
        errs[1].to_string(),
        "Goto references non-existent block BlockId(5) (in fn `main`, block `entry`)"
    );
    match errs[0].to_compiler_error() {
        CompilerError::Codegen(m) => assert_eq!(
            m,
            "block `dead` has no terminator (Unreachable placeholder remains) (in fn `main`, block `dead`)"
        ),
        other => panic!("unexpected {:?}", other),
    }
}

#[test]
fn verify_names_unknown_function_with_question_mark() {
    let mut f = function(vec![block(0, "entry", vec![], MirTerminator::Unreachable)], vec![], vec![], 0);
    f.name = SymbolId(77);
    let errs = program(vec![f]).verify().unwrap_err();
    assert_eq!(errs[0].location, Some(("?".to_string(), "entry".to_string())));
}

#[test]
fn operand_types() {
    let locals = vec![
        MirLocal { id: LocalId(1), ty: HirType::Bool, name: SymbolId(0), mutable: false },
        MirLocal { id: LocalId(1), ty: HirType::Str, name: SymbolId(0), mutable: false },
    ];
    assert_eq!(MirOperand::Local(LocalId(1)).ty(&locals), HirType::Bool);
    assert_eq!(MirOperand::Local(LocalId(2)).ty(&locals), HirType::I64);
    assert_eq!(MirOperand::Const(MirConst::F64(0)).ty(&locals), HirType::F64);
}

#[test]
fn program_lookups() {
    let mut f = function(vec![], vec![], vec![], 0);
    f.def_id = DefId(4);
    let p = program(vec![f]);
    assert_eq!(p.function_name(DefId(4)), Some("main"));
    assert_eq!(p.function_name(DefId(5)), None);
    assert!(p.struct_def(SymbolId(0)).is_none());
    assert!(p.enum_def(SymbolId(0)).is_none());
}

fn fold_float_always(_op: MirBinOp, _a: u64, _b: u64) -> Option<MirConst> {
    Some(MirConst::Bool(true))
}

#[test]
fn fold_float_modulo_and_logic_are_not_folded() {
    let a = MirConst::F64(5.0f64.to_bits());
    let b = MirConst::F64(2.0f64.to_bits());
    assert_eq!(MirConst::fold_binop(MirBinOp::Mod, &a, &b, &fold_float_always), None);
    assert_eq!(MirConst::fold_binop(MirBinOp::And, &a, &b, &fold_float_always), None);
    assert_eq!(MirConst::fold_binop(MirBinOp::Or, &a, &b, &fold_float_always), None);
    assert_eq!(MirConst::fold_binop(MirBinOp::Lt, &a, &b, &fold_float_always), Some(MirConst::Bool(true)));
}
