use stnx::ast::{BinOp, Visibility as AstVisibility};
use stnx::error::CompilerError;
use stnx::hir::{
    DefId, DefTable, EnumDef, HirExpr, HirExprKind, HirFunction, HirProgram, HirStmt, HirStmtKind, HirType,
    SourceSpan, SymbolId, SymbolInterner, Visibility,
};
use stnx::mir::lower::{lower_program, PRINTLN_DEF};
use stnx::mir::{MirConst, MirOperand, MirRvalue, MirStmtKind, MirTerminator};
use stnx::module::ModuleId;

fn sp() -> SourceSpan {
    SourceSpan { offset: 0, len: 0 }
}

fn e(kind: HirExprKind, ty: HirType) -> HirExpr {
    HirExpr { kind, ty, span: sp() }
}

fn lit(n: i64) -> HirExpr {
    e(HirExprKind::Integer(n), HirType::I64)
}

fn var(s: SymbolId) -> HirExpr {
    e(HirExprKind::Variable { symbol: s }, HirType::I64)
}

fn st(kind: HirStmtKind) -> HirStmt {
    HirStmt { kind, span: sp() }
}

fn func(def: u32, name: SymbolId, params: Vec<(SymbolId, HirType)>, body: Vec<HirStmt>) -> HirFunction {
    HirFunction {
        def_id: DefId(def),
        name,
        generic_params: vec![],
        params,
        return_type: HirType::I64,
        body,
        span: sp(),
        module: ModuleId(0),
        visibility: Visibility::Private,
    }
}

fn program(symbols: SymbolInterner, functions: Vec<HirFunction>, enums: Vec<EnumDef>) -> HirProgram {
    HirProgram {
        functions,
        structs: vec![],
        enums,
        symbols,
        modules: vec![],
        root_module: ModuleId(0),
        module_paths: vec![],
        def_table: DefTable::new(),
        module_scopes: vec![],
        use_decls: vec![],
        mod_decls: vec![],
    }
}

#[test]
fn lower_let_and_final_expression() {
    let mut syms = SymbolInterner::default();
    let main = syms.intern("main");
    let x = syms.intern("x");
    let body = vec![
        st(HirStmtKind::Let {
            name: x,
            mutable: false,
            ty: None,
            value: e(HirExprKind::Binary { op: BinOp::Add, lhs: Box::new(lit(1)), rhs: Box::new(lit(2)) }, HirType::I64),
        }),
        st(HirStmtKind::Expr(var(x))),
    ];
    let hir = program(syms, vec![func(0, main, vec![], body)], vec![]);
    let mir = lower_program(&hir).expect("lowering");
    assert!(mir.verify().is_ok());
    let f = &mir.functions[0];
    assert_eq!(f.blocks.len(), 1);
    assert_eq!(f.blocks[0].name, "entry");
    match &f.blocks[0].terminator {
        MirTerminator::Return(Some(MirOperand::Local(_))) => {}
        other => panic!("unexpected terminator {:?}", other),
    }
    assert!(matches!(
        f.blocks[0].stmts[0].kind,
        MirStmtKind::LocalDecl { .. }
    ));
}

#[test]
fn lower_undefined_variable_is_an_error() {
    let mut syms = SymbolInterner::default();
    let main = syms.intern("main");
    let y = syms.intern("y");
    let hir = program(syms, vec![func(0, main, vec![], vec![st(HirStmtKind::Expr(var(y)))])], vec![]);
    match lower_program(&hir) {
        Err(CompilerError::Codegen(m)) => assert_eq!(m, "undefined variable: y"),
        other => panic!("unexpected {:?}", other.map(|_| ())),
    }
}

#[test]
fn lower_let_value_cannot_see_its_own_name() {
    let mut syms = SymbolInterner::default();
    let main = syms.intern("main");
    let x = syms.intern("x");
    let body = vec![st(HirStmtKind::Let { name: x, mutable: false, ty: None, value: var(x) })];
    let hir = program(syms, vec![func(0, main, vec![], body)], vec![]);
    assert!(lower_program(&hir).is_err());
}

#[test]
fn lower_control_flow_verifies() {
    let mut syms = SymbolInterner::default();
    let main = syms.intern("main");
    let n = syms.intern("n");
    let i = syms.intern("i");
    let cond = |v: bool| e(HirExprKind::Bool(v), HirType::Bool);
    let if_expr = e(
        HirExprKind::If {
            condition: Box::new(cond(true)),
            then_branch: vec![st(HirStmtKind::Return(Some(lit(1))))],
            elif_branches: vec![(cond(false), vec![st(HirStmtKind::Println(var(n)))])],
            else_branch: Some(vec![st(HirStmtKind::Expr(lit(3)))]),
        },
        HirType::Unit,
    );
    let while_expr = e(HirExprKind::While { condition: Box::new(cond(false)), body: vec![] }, HirType::Unit);
    let for_expr = e(
        HirExprKind::For {
            var: i,
            iter: Box::new(e(
                HirExprKind::Range { start: Box::new(lit(0)), end: Box::new(var(n)), is_inclusive: true },
                HirType::I64,
            )),
            body: vec![st(HirStmtKind::Println(var(i)))],
        },
        HirType::Unit,
    );
    let body = vec![
        st(HirStmtKind::Expr(if_expr)),
        st(HirStmtKind::Expr(while_expr)),
        st(HirStmtKind::Expr(for_expr)),
        st(HirStmtKind::Return(Some(var(n)))),
    ];
    let hir = program(syms, vec![func(0, main, vec![(n, HirType::I64)], body)], vec![]);
    let mir = lower_program(&hir).expect("lowering");
    assert!(mir.verify().is_ok());
    let f = &mir.functions[0];
    assert_eq!(f.param_locals.len(), 1);
    assert_eq!(f.param_locals[0].0, 0);
    let names: Vec<&str> = f.blocks.iter().map(|b| b.name.as_str()).collect();
    assert_eq!(&names[..6], &["entry", "if_then", "if_end", "elif0_cond", "elif0_body", "if_else"]);
    assert!(names.contains(&"while_cond"));
    assert!(names.contains(&"for_exit"));
    for (k, b) in f.blocks.iter().enumerate() {
        assert_eq!(b.id.0 as usize, k);
        assert!(!matches!(b.terminator, MirTerminator::Unreachable));
    }
}

#[test]
fn lower_for_requires_a_range() {
    let mut syms = SymbolInterner::default();
    let main = syms.intern("main");
    let i = syms.intern("i");
    let for_expr = e(HirExprKind::For { var: i, iter: Box::new(lit(3)), body: vec![] }, HirType::Unit);
    let hir = program(syms, vec![func(0, main, vec![], vec![st(HirStmtKind::Expr(for_expr))])], vec![]);
    match lower_program(&hir) {
        Err(CompilerError::Semantic(m)) => assert_eq!(m, "for loop iterator must be a range expression"),
        other => panic!("unexpected {:?}", other.map(|_| ())),
    }
}

fn color_enum(syms: &mut SymbolInterner) -> (EnumDef, SymbolId, SymbolId, SymbolId) {
    let color = syms.intern("Color");
    let red = syms.intern("Red");
    let green = syms.intern("Green");
    let def = EnumDef {
        def_id: DefId(9),
        name: color,
        generic_params: vec![],
        variants: vec![red, green],
        span: sp(),
        module: ModuleId(0),
        visibility: Visibility::Private,
    };
    (def, color, red, green)
}

#[test]
fn lower_enum_constructor_to_its_tag() {
    let mut syms = SymbolInterner::default();
    let main = syms.intern("main");
    let (def, color, _red, green) = color_enum(&mut syms);
    let ctor = e(HirExprKind::EnumConstructor { name: color, variant: green }, HirType::Enum(color));
    let hir = program(syms, vec![func(0, main, vec![], vec![st(HirStmtKind::Expr(ctor))])], vec![def]);
    let mir = lower_program(&hir).expect("lowering");
    match &mir.functions[0].blocks[0].terminator {
        MirTerminator::Return(Some(MirOperand::Const(MirConst::I64(1)))) => {}
        other => panic!("unexpected {:?}", other),
    }
}

#[test]
fn lower_enum_constructor_errors() {
    let mut syms = SymbolInterner::default();
    let main = syms.intern("main");
    let (def, color, _red, _green) = color_enum(&mut syms);
    let blue = syms.intern("Blue");
    let shape = syms.intern("Shape");
    let bad_variant = e(HirExprKind::EnumConstructor { name: color, variant: blue }, HirType::I64);
    let bad_enum = e(HirExprKind::EnumConstructor { name: shape, variant: blue }, HirType::I64);
    let hir = program(
        syms.clone(),
        vec![func(0, main, vec![], vec![st(HirStmtKind::Expr(bad_variant))])],
        vec![def.clone()],
    );
    match lower_program(&hir) {
        Err(CompilerError::Semantic(m)) => assert_eq!(m, "enum Color has no variant Blue"),
        other => panic!("unexpected {:?}", other.map(|_| ())),
    }
    let hir = program(syms, vec![func(0, main, vec![], vec![st(HirStmtKind::Expr(bad_enum))])], vec![def]);
    match lower_program(&hir) {
        Err(CompilerError::Semantic(m)) => assert_eq!(m, "undefined enum: Shape"),
        other => panic!("unexpected {:?}", other.map(|_| ())),
    }
}

#[test]
fn lower_call_and_println() {
    let mut syms = SymbolInterner::default();
    let main = syms.intern("main");
    let helper = syms.intern("helper");
    let call = e(HirExprKind::Call { func: DefId(1), args: vec![lit(7)], type_args: vec![] }, HirType::I64);
    let main_fn = func(0, main, vec![], vec![st(HirStmtKind::Println(call)), st(HirStmtKind::Return(Some(lit(0))))]);
    let mut helper_fn = func(1, helper, vec![], vec![st(HirStmtKind::Expr(lit(1)))]);
    helper_fn.return_type = HirType::Bool;
    let hir = program(syms, vec![main_fn, helper_fn], vec![]);
    let mir = lower_program(&hir).expect("lowering");
    assert!(mir.verify().is_ok());
    let f = &mir.functions[0];
    match &f.blocks[0].terminator {
        MirTerminator::Call { func, args, destination, next } => {
            assert_eq!(*func, DefId(1));
            assert_eq!(args, &vec![MirOperand::Const(MirConst::I64(7))]);
            assert_eq!(f.locals[destination.0 as usize].ty, HirType::Bool);
            assert_eq!(next.0, 1);
        }
        other => panic!("unexpected {:?}", other),
    }
    assert_eq!(f.blocks[1].name, "call_cont_1");
    match &f.blocks[1].terminator {
        MirTerminator::Call { func, .. } => assert_eq!(func.0, PRINTLN_DEF),
        other => panic!("unexpected {:?}", other),
    }
    assert_eq!(f.blocks[2].name, "println_cont_2");
    assert!(matches!(f.blocks[2].terminator, MirTerminator::Return(Some(MirOperand::Const(MirConst::I64(0))))));
}

#[test]
fn lower_struct_literal_and_field_access() {
    let mut syms = SymbolInterner::default();
    let main = syms.intern("main");
    let point = syms.intern("Point");
    let fx = syms.intern("x");
    let lit = e(
        HirExprKind::StructLiteral { name: point, fields: vec![(fx, Box::new(lit(4)))], type_args: vec![] },
        HirType::Struct(point),
    );
    let access = e(HirExprKind::FieldAccess { expr: Box::new(lit), field: fx }, HirType::I64);
    let hir = program(syms, vec![func(0, main, vec![], vec![st(HirStmtKind::Expr(access))])], vec![]);
    let mir = lower_program(&hir).expect("lowering");
    assert!(mir.verify().is_ok());
    let stmts = &mir.functions[0].blocks[0].stmts;
    assert!(stmts.iter().any(|s| matches!(&s.kind, MirStmtKind::Assign { rvalue: MirRvalue::StructLit { .. }, .. })));
    assert!(stmts.iter().any(|s| matches!(&s.kind, MirStmtKind::Assign { rvalue: MirRvalue::FieldAccess { .. }, .. })));
    let _ = AstVisibility::Public;
}

#[test]
fn lower_subtraction_keeps_operand_order() {
    let mut syms = SymbolInterner::default();
    let main = syms.intern("sub");
    let a = syms.intern("a");
    let b = syms.intern("b");
    let body = vec![st(HirStmtKind::Expr(e(
        HirExprKind::Binary { op: BinOp::Sub, lhs: Box::new(var(a)), rhs: Box::new(var(b)) },
        HirType::I64,
    )))];
    let hir = program(syms, vec![func(0, main, vec![(a, HirType::I64), (b, HirType::I64)], body)], vec![]);
    let mir = lower_program(&hir).expect("lowering");
    let f = &mir.functions[0];
    assert_eq!(f.params.len(), 2);
    assert_eq!(f.params[0].0, a);
    assert_eq!(f.params[1].0, b);
    assert_eq!(f.return_type, HirType::I64);
    let stmts = &f.blocks[0].stmts;
    assert_eq!(stmts.len(), 2);
    match &stmts[1].kind {
        MirStmtKind::Assign { local, rvalue: MirRvalue::Binary { op, lhs, rhs } } => {
            assert_eq!(local.0, 2);
            assert_eq!(*op, stnx::mir::MirBinOp::Sub);
            assert_eq!(*lhs, MirOperand::Local(stnx::mir::LocalId(0)));
            assert_eq!(*rhs, MirOperand::Local(stnx::mir::LocalId(1)));
        }
        other => panic!("unexpected statement {:?}", other),
    }
}

#[test]
fn lower_straight_body_with_return() {
    let mut syms = SymbolInterner::default();
    let main = syms.intern("twice_less_one");
    let a = syms.intern("a");
    let x = syms.intern("x");
    let body = vec![
        st(HirStmtKind::Let {
            name: x,
            mutable: true,
            ty: None,
            value: e(HirExprKind::Binary { op: BinOp::Mul, lhs: Box::new(var(a)), rhs: Box::new(lit(2)) }, HirType::I64),
        }),
        st(HirStmtKind::Return(Some(e(
            HirExprKind::Binary { op: BinOp::Sub, lhs: Box::new(var(x)), rhs: Box::new(lit(1)) },
            HirType::I64,
        )))),
    ];
    let hir = program(syms, vec![func(0, main, vec![(a, HirType::I64)], body)], vec![]);
    let mir = lower_program(&hir).expect("lowering");
    let f = &mir.functions[0];
    assert_eq!(f.blocks.len(), 1);
    let b = &f.blocks[0];
    assert_eq!(b.stmts.len(), 6);
    // x is local 1, declared before its value's temporary (local 2).
    match &b.stmts[1].kind {
        MirStmtKind::Assign { local, rvalue: MirRvalue::Binary { op, lhs, rhs } } => {
            assert_eq!(local.0, 2);
            assert_eq!(*op, stnx::mir::MirBinOp::Mul);
            assert_eq!(*lhs, MirOperand::Local(stnx::mir::LocalId(0)));
            assert_eq!(*rhs, MirOperand::Const(MirConst::I64(2)));
        }
        other => panic!("unexpected statement {:?}", other),
    }
    match &b.stmts[2].kind {
        MirStmtKind::LocalDecl { local, mutable, .. } => {
            assert_eq!(local.0, 1);
            assert!(*mutable);
        }
        other => panic!("unexpected statement {:?}", other),
    }
    match &b.stmts[3].kind {
        MirStmtKind::Assign { local, rvalue: MirRvalue::Use(op) } => {
            assert_eq!(local.0, 1);
            assert_eq!(*op, MirOperand::Local(stnx::mir::LocalId(2)));
        }
        other => panic!("unexpected statement {:?}", other),
    }
    match &b.stmts[5].kind {
        MirStmtKind::Assign { local, rvalue: MirRvalue::Binary { op, lhs, rhs } } => {
            assert_eq!(local.0, 3);
            assert_eq!(*op, stnx::mir::MirBinOp::Sub);
            assert_eq!(*lhs, MirOperand::Local(stnx::mir::LocalId(1)));
            assert_eq!(*rhs, MirOperand::Const(MirConst::I64(1)));
        }
        other => panic!("unexpected statement {:?}", other),
    }
    match &b.terminator {
        MirTerminator::Return(Some(op)) => assert_eq!(*op, MirOperand::Local(stnx::mir::LocalId(3))),
        other => panic!("unexpected terminator {:?}", other),
    }
}

#[test]
fn lower_list_literal_keeps_element_order() {
    let mut syms = SymbolInterner::default();
    let main = syms.intern("pair");
    let a = syms.intern("a");
    let xs = syms.intern("xs");
    let list_ty = HirType::List(Box::new(HirType::I64));
    let body = vec![
        st(HirStmtKind::Let {
            name: xs,
            mutable: false,
            ty: None,
            value: e(HirExprKind::ListLiteral { elements: vec![var(a), lit(1)] }, list_ty.clone()),
        }),
        st(HirStmtKind::Expr(e(HirExprKind::Variable { symbol: xs }, list_ty))),
    ];
    let hir = program(syms, vec![func(0, main, vec![(a, HirType::I64)], body)], vec![]);
    let mir = lower_program(&hir).expect("lowering");
    let b = &mir.functions[0].blocks[0];
    assert_eq!(b.stmts.len(), 4);
    match &b.stmts[1].kind {
        MirStmtKind::Assign { local, rvalue: MirRvalue::ListLiteral { elements } } => {
            assert_eq!(local.0, 2);
            assert_eq!(elements.len(), 2);
            assert_eq!(elements[0], MirOperand::Local(stnx::mir::LocalId(0)));
            assert_eq!(elements[1], MirOperand::Const(MirConst::I64(1)));
        }
        other => panic!("unexpected statement {:?}", other),
    }
    match &b.terminator {
        MirTerminator::Return(Some(op)) => assert_eq!(*op, MirOperand::Local(stnx::mir::LocalId(1))),
        other => panic!("unexpected terminator {:?}", other),
    }
}

fn switch_targets(t: &MirTerminator) -> (Vec<(u64, u32)>, u32) {
    match t {
        MirTerminator::SwitchInt { branches, else_target, .. } => {
            (branches.iter().map(|(v, b)| (*v, b.0)).collect(), else_target.0)
        }
        other => panic!("expected a switch, got {:?}", other),
    }
}

#[test]
fn lower_if_and_while_branch_on_true() {
    let mut syms = SymbolInterner::default();
    let main = syms.intern("main");
    let a = syms.intern("a");
    let b = syms.intern("b");
    let if_expr = e(
        HirExprKind::If {
            condition: Box::new(e(HirExprKind::Variable { symbol: a }, HirType::Bool)),
            then_branch: vec![st(HirStmtKind::Expr(lit(1)))],
            elif_branches: vec![(e(HirExprKind::Variable { symbol: b }, HirType::Bool), vec![st(HirStmtKind::Expr(lit(2)))])],
            else_branch: None,
        },
        HirType::Unit,
    );
    let while_expr = e(
        HirExprKind::While { condition: Box::new(e(HirExprKind::Variable { symbol: a }, HirType::Bool)), body: vec![] },
        HirType::Unit,
    );
    let body = vec![st(HirStmtKind::Expr(if_expr)), st(HirStmtKind::Expr(while_expr)), st(HirStmtKind::Expr(lit(0)))];
    let hir = program(syms, vec![func(0, main, vec![(a, HirType::Bool), (b, HirType::Bool)], body)], vec![]);
    let mir = lower_program(&hir).expect("lowering");
    let bs = &mir.functions[0].blocks;
    // entry 0, if_then 1, if_end 2, elif0_cond 3, elif0_body 4, if_else 5
    assert_eq!(switch_targets(&bs[0].terminator), (vec![(1, 1)], 3));
    assert_eq!(switch_targets(&bs[3].terminator), (vec![(1, 4)], 5));
    assert!(matches!(bs[1].terminator, MirTerminator::Goto { target } if target.0 == 2));
    assert!(matches!(bs[4].terminator, MirTerminator::Goto { target } if target.0 == 2));
    assert!(matches!(bs[5].terminator, MirTerminator::Goto { target } if target.0 == 2));
    // while_cond 6, while_body 7, while_exit 8, entered from the if's end block
    assert!(matches!(bs[2].terminator, MirTerminator::Goto { target } if target.0 == 6));
    assert_eq!(switch_targets(&bs[6].terminator), (vec![(1, 7)], 8));
    assert!(matches!(bs[7].terminator, MirTerminator::Goto { target } if target.0 == 6));
}
