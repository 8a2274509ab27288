use stnx::ast::{Type, Visibility};
use stnx::hir::lower::{ast_type_to_hir, ast_visibility_to_hir, is_abi_safe, LowerScope};
use stnx::hir::{DefEntry, DefId, DefKind, DefTable, HirLower, HirType, SymbolId, SymbolInterner};
use stnx::hir::Visibility as HirVisibility;
use stnx::module::{ModuleId, ModulePath, ModuleScope};

#[test]
fn interning_is_idempotent_and_dense() {
    let mut t = SymbolInterner::default();
    let a = t.intern("alpha");
    let b = t.intern("beta");
    let a2 = t.intern("alpha");
    assert_eq!(a, SymbolId(0));
    assert_eq!(b, SymbolId(1));
    assert_eq!(a2, a);
    assert_eq!(t.len(), 2);
    assert_eq!(t.lookup(b), Some("beta"));
    assert_eq!(t.lookup(SymbolId(9)), None);
    assert_eq!(t.next_id(), SymbolId(2));
}

#[test]
fn def_table_registers_in_order() {
    let mut table = DefTable::new();
    assert!(table.is_empty());
    let e = DefEntry { module: ModuleId(0), local_index: 3, kind: DefKind::Struct };
    let id = table.register(e);
    assert_eq!(id, DefId(0));
    assert_eq!(table.lookup(id), Some(&e));
    assert_eq!(table.lookup(DefId(1)), None);
    assert_eq!(table.len(), 1);
    let f = DefEntry { module: ModuleId(1), local_index: 0, kind: DefKind::Function };
    table.register(f);
    let all = table.iter();
    assert_eq!(all, vec![(DefId(0), &e), (DefId(1), &f)]);
}

#[test]
fn abi_safety() {
    assert!(is_abi_safe(&HirType::I64));
    assert!(is_abi_safe(&HirType::Unit));
    assert!(!is_abi_safe(&HirType::Str));
    assert!(!is_abi_safe(&HirType::Struct(SymbolId(0))));
}

#[test]
fn visibility_maps_through() {
    assert_eq!(ast_visibility_to_hir(&Visibility::Public), HirVisibility::Public);
    assert_eq!(ast_visibility_to_hir(&Visibility::Private), HirVisibility::Private);
}

#[test]
fn ast_types_convert_and_intern() {
    let mut symbols = SymbolInterner::default();
    let enums = vec!["Color".to_string()];
    let t = SymbolId(0);
    symbols.intern("T");
    let generics = [t];
    assert_eq!(ast_type_to_hir(&Type::I64, &mut symbols, &enums, None), HirType::I64);
    assert_eq!(
        ast_type_to_hir(&Type::Struct("Point".to_string()), &mut symbols, &enums, None),
        HirType::Struct(SymbolId(1))
    );
    assert_eq!(
        ast_type_to_hir(&Type::Struct("Color".to_string()), &mut symbols, &enums, None),
        HirType::Enum(SymbolId(2))
    );
    assert_eq!(
        ast_type_to_hir(&Type::Struct("T".to_string()), &mut symbols, &enums, Some(&generics)),
        HirType::Generic(t)
    );
    assert_eq!(
        ast_type_to_hir(&Type::List(Box::new(Type::Bool)), &mut symbols, &enums, None),
        HirType::List(Box::new(HirType::Bool))
    );
    assert_eq!(symbols.len(), 3);
}

#[test]
fn next_def_id_interns_a_fresh_name() {
    let mut l = HirLower::new();
    l.symbols.intern("main");
    let d = l.next_def_id();
    assert_eq!(d, DefId(1));
    assert_eq!(l.symbols.lookup(SymbolId(1)), Some("__def_1"));
}

#[test]
fn lexical_scopes_shadow_and_fall_back() {
    let x = SymbolId(1);
    let y = SymbolId(2);
    let mut outer = LowerScope::new();
    outer.define_variable(x, HirType::I64, false);
    outer.define_variable(y, HirType::Bool, true);
    let mut inner = LowerScope::with_parent(outer.clone());
    inner.define_variable(x, HirType::Str, true);
    let vx = inner.lookup_variable(&x).unwrap();
    assert_eq!(vx.ty, HirType::Str);
    assert!(vx.mutable);
    let vy = inner.lookup_variable(&y).unwrap();
    assert_eq!(vy.ty, HirType::Bool);
    assert!(inner.lookup_variable(&SymbolId(3)).is_none());
    assert_eq!(outer.lookup_variable(&x).unwrap().ty, HirType::I64);
}

#[test]
fn module_scope_items_shadow_imports_and_parents() {
    let name = SymbolId(4);
    let mut root = ModuleScope::new();
    root.define_item(name, DefId(10));
    let mut child = ModuleScope::with_parent(ModuleId(0));
    assert_eq!(child.lookup(&name), None);
    let scopes = vec![root];
    assert_eq!(child.lookup_with_parent(&name, &scopes), Some(DefId(10)));
    child.define_import(name, DefId(20));
    assert_eq!(child.lookup(&name), Some(DefId(20)));
    child.define_item(name, DefId(30));
    assert_eq!(child.lookup(&name), Some(DefId(30)));
    assert_eq!(child.lookup_with_parent(&name, &scopes), Some(DefId(30)));
}

#[test]
fn module_path_display_nested() {
    let mut interner = SymbolInterner::default();
    let p = ModulePath::from_strings(&mut interner, &["graphics", "math"]);
    assert_eq!(p.to_string(), "crate::0::1");
}
