use stnx::hir::types::Substitution;
use stnx::hir::{DefId, HirType, SymbolId};
use stnx::mir::monomorphize::{substitute_type, Instantiation, NameCounter};

fn empty_subst() -> Substitution {
    Substitution::new()
}

#[test]
fn substitute_concrete_type_passes_through() {
    let subst = empty_subst();
    assert_eq!(substitute_type(&HirType::I64, &subst), HirType::I64);
    assert_eq!(substitute_type(&HirType::Bool, &subst), HirType::Bool);
    assert_eq!(substitute_type(&HirType::Unit, &subst), HirType::Unit);
}

#[test]
fn substitute_generic_resolves_to_concrete() {
    let mut subst = empty_subst();
    let t = SymbolId(42);
    subst.insert(t, HirType::I64);
    let ty = HirType::Generic(t);
    assert_eq!(substitute_type(&ty, &subst), HirType::I64);
}

#[test]
fn substitute_generic_with_no_mapping_is_identity() {
    let subst = empty_subst();
    let ty = HirType::Generic(SymbolId(99));
    assert_eq!(substitute_type(&ty, &subst), ty);
}

#[test]
fn substitute_apply_recurses() {
    let mut subst = empty_subst();
    let t = SymbolId(7);
    subst.insert(t, HirType::Bool);
    let ty = HirType::Apply {
        base: SymbolId(1),
        args: vec![HirType::I64, HirType::Generic(t), HirType::F64],
    };
    let out = substitute_type(&ty, &subst);
    match out {
        HirType::Apply { base, args } => {
            assert_eq!(base, SymbolId(1));
            assert_eq!(args, vec![HirType::I64, HirType::Bool, HirType::F64]);
        }
        _ => panic!("expected Apply"),
    }
}

#[test]
fn instantiation_name_format() {
    let inst = Instantiation {
        callee: DefId(0),
        args: vec![HirType::I64],
    };
    assert_eq!(inst.monomorphized_name("id", 1), "id$1");
    assert_eq!(inst.monomorphized_name("swap", 3), "swap$3");
}

#[test]
fn substitute_later_insert_wins() {
    let mut subst = empty_subst();
    let t = SymbolId(3);
    subst.insert(t, HirType::I64);
    subst.insert(t, HirType::Str);
    assert_eq!(substitute_type(&HirType::Generic(t), &subst), HirType::Str);
}

#[test]
fn substitute_twice_with_ground_mapping_is_stable() {
    let mut subst = empty_subst();
    let t = SymbolId(5);
    subst.insert(t, HirType::Bool);
    let ty = HirType::Apply { base: SymbolId(2), args: vec![HirType::Generic(t), HirType::Generic(SymbolId(6))] };
    let once = substitute_type(&ty, &subst);
    let twice = substitute_type(&once, &subst);
    assert_eq!(once, twice);
    assert_eq!(
        once,
        HirType::Apply { base: SymbolId(2), args: vec![HirType::Bool, HirType::Generic(SymbolId(6))] }
    );
}

#[test]
fn substitute_leaves_list_alone() {
    let mut subst = empty_subst();
    subst.insert(SymbolId(1), HirType::I64);
    let ty = HirType::List(Box::new(HirType::Generic(SymbolId(1))));
    assert_eq!(substitute_type(&ty, &subst), ty);
}

#[test]
fn name_counter_counts_from_zero() {
    let mut c = NameCounter::default();
    assert_eq!(c.fresh_suffix(), 0);
    assert_eq!(c.fresh_suffix(), 1);
    assert_eq!(c.fresh_suffix(), 2);
    assert_eq!(c.next, 3);
}

use stnx::hir::{HirExpr, HirExprKind, HirStmt, HirStmtKind, SourceSpan};
use stnx::mir::monomorphize::{rewrite_expr, rewrite_stmt, substitute_expr, substitute_stmt, CallRemap, StructRemap};

fn ex(kind: HirExprKind, ty: HirType) -> HirExpr {
    HirExpr { kind, ty, span: SourceSpan { offset: 3, len: 4 } }
}

#[test]
fn substitute_expr_reaches_every_type() {
    let t = SymbolId(5);
    let mut subst = Substitution::new();
    subst.insert(t, HirType::I64);
    let arg = ex(HirExprKind::Variable { symbol: SymbolId(1) }, HirType::Generic(t));
    let call = ex(
        HirExprKind::Call { func: DefId(2), args: vec![arg], type_args: vec![HirType::Generic(t)] },
        HirType::Generic(t),
    );
    let out = substitute_expr(&call, &subst);
    assert_eq!(out.ty, HirType::I64);
    assert_eq!(out.span, SourceSpan { offset: 3, len: 4 });
    match out.kind {
        HirExprKind::Call { func, args, type_args } => {
            assert_eq!(func, DefId(2));
            assert_eq!(type_args, vec![HirType::I64]);
            assert_eq!(args[0].ty, HirType::I64);
        }
        _ => panic!("expected Call"),
    }
}

#[test]
fn substitute_stmt_let_annotation() {
    let t = SymbolId(5);
    let mut subst = Substitution::new();
    subst.insert(t, HirType::Bool);
    let st = HirStmt {
        kind: HirStmtKind::Let {
            name: SymbolId(1),
            mutable: true,
            ty: Some(HirType::Generic(t)),
            value: ex(HirExprKind::Bool(true), HirType::Generic(t)),
        },
        span: SourceSpan { offset: 0, len: 1 },
    };
    match substitute_stmt(&st, &subst).kind {
        HirStmtKind::Let { ty, value, mutable, .. } => {
            assert_eq!(ty, Some(HirType::Bool));
            assert_eq!(value.ty, HirType::Bool);
            assert!(mutable);
        }
        _ => panic!("expected Let"),
    }
}

#[test]
fn rewrite_retargets_instantiated_calls() {
    let mut remap = CallRemap::new();
    remap.insert(DefId(1), vec![HirType::I64], DefId(10));
    remap.insert(DefId(1), vec![HirType::Bool], DefId(11));
    let structs = StructRemap::new();
    let inferred = ex(
        HirExprKind::Call { func: DefId(1), args: vec![ex(HirExprKind::Bool(true), HirType::Bool)], type_args: vec![] },
        HirType::Bool,
    );
    match rewrite_expr(&inferred, &remap, &structs).kind {
        HirExprKind::Call { func, .. } => assert_eq!(func, DefId(11)),
        _ => panic!("expected Call"),
    }
    let explicit = ex(
        HirExprKind::Call {
            func: DefId(1),
            args: vec![ex(HirExprKind::Bool(true), HirType::Bool)],
            type_args: vec![HirType::I64],
        },
        HirType::I64,
    );
    match rewrite_expr(&explicit, &remap, &structs).kind {
        HirExprKind::Call { func, .. } => assert_eq!(func, DefId(10)),
        _ => panic!("expected Call"),
    }
    let other = ex(HirExprKind::Call { func: DefId(3), args: vec![], type_args: vec![] }, HirType::Unit);
    match rewrite_expr(&other, &remap, &structs).kind {
        HirExprKind::Call { func, .. } => assert_eq!(func, DefId(3)),
        _ => panic!("expected Call"),
    }
}

#[test]
fn rewrite_retargets_struct_literals_in_statements() {
    let remap = CallRemap::new();
    let mut structs = StructRemap::new();
    structs.insert(SymbolId(7), vec![HirType::I64], SymbolId(70));
    let lit = ex(
        HirExprKind::StructLiteral { name: SymbolId(7), fields: vec![], type_args: vec![HirType::I64] },
        HirType::Struct(SymbolId(7)),
    );
    let st = HirStmt { kind: HirStmtKind::Return(Some(lit)), span: SourceSpan { offset: 0, len: 0 } };
    match rewrite_stmt(&st, &remap, &structs).kind {
        HirStmtKind::Return(Some(e)) => match e.kind {
            HirExprKind::StructLiteral { name, .. } => assert_eq!(name, SymbolId(70)),
            _ => panic!("expected StructLiteral"),
        },
        _ => panic!("expected Return"),
    }
}
