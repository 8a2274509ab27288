use stnx::error::CompilerError;
use stnx::hir::{
    DefId, DefTable, HirExpr, HirExprKind, HirFunction, HirProgram, HirStmt, HirStmtKind, HirType, SourceSpan, StructDef,
    SymbolId, SymbolInterner, Visibility,
};
use stnx::mir::lower::lower_program;
use stnx::mir::monomorphize::collect::collect_program;
use stnx::hir::function::copy_struct_def;
use stnx::mir::monomorphize::{lower_one_function, monomorphize};
use stnx::module::ModuleId;

fn sp() -> SourceSpan {
    SourceSpan { offset: 0, len: 0 }
}

fn e(kind: HirExprKind, ty: HirType) -> HirExpr {
    HirExpr { kind, ty, span: sp() }
}

fn num(n: i64) -> HirExpr {
    e(HirExprKind::Integer(n), HirType::I64)
}

fn flag(b: bool) -> HirExpr {
    e(HirExprKind::Bool(b), HirType::Bool)
}

fn var(s: SymbolId, ty: HirType) -> HirExpr {
    e(HirExprKind::Variable { symbol: s }, ty)
}

fn call(f: u32, args: Vec<HirExpr>, type_args: Vec<HirType>, ty: HirType) -> HirExpr {
    e(HirExprKind::Call { func: DefId(f), args, type_args }, ty)
}

fn st(kind: HirStmtKind) -> HirStmt {
    HirStmt { kind, span: sp() }
}

fn stmt(x: HirExpr) -> HirStmt {
    st(HirStmtKind::Expr(x))
}

fn func(
    def: u32,
    name: SymbolId,
    generic_params: Vec<SymbolId>,
    params: Vec<(SymbolId, HirType)>,
    ret: HirType,
    body: Vec<HirStmt>,
) -> HirFunction {
    HirFunction {
        def_id: DefId(def),
        name,
        generic_params,
        params,
        return_type: ret,
        body,
        span: sp(),
        module: ModuleId(0),
        visibility: Visibility::Private,
    }
}

fn program(symbols: SymbolInterner, functions: Vec<HirFunction>, structs: Vec<StructDef>) -> HirProgram {
    HirProgram {
        functions,
        structs,
        enums: vec![],
        symbols,
        modules: vec![],
        root_module: ModuleId(0),
        module_paths: vec![],
        def_table: DefTable::new(),
        module_scopes: vec![],
        use_decls: vec![],
        mod_decls: vec![],
    }
}

/// `main` (id 0) runs `body`; `id<T>(x: T) -> T { x }` has id 1.
fn with_identity(body: Vec<HirStmt>) -> HirProgram {
    let mut syms = SymbolInterner::default();
    let main = syms.intern("main");
    let id = syms.intern("id");
    let t = syms.intern("T");
    let x = syms.intern("x");
    let main_fn = func(0, main, vec![], vec![], HirType::Unit, body);
    let id_fn = func(
        1,
        id,
        vec![t],
        vec![(x, HirType::Generic(t))],
        HirType::Generic(t),
        vec![stmt(var(x, HirType::Generic(t)))],
    );
    program(syms, vec![main_fn, id_fn], vec![])
}

fn name_of(p: &SymbolInterner, s: SymbolId) -> String {
    p.lookup(s).unwrap_or("?").to_string()
}

#[test]
fn identity_call_gets_one_copy() {
    let hir = with_identity(vec![stmt(call(1, vec![num(42)], vec![], HirType::I64))]);
    let mir = monomorphize(&hir).expect("monomorphize");
    assert_eq!(mir.functions.len(), 3);
    assert_eq!(mir.functions[0].def_id, DefId(0));
    assert_eq!(mir.functions[1].def_id, DefId(1));
    assert_eq!(mir.functions[2].def_id, DefId(2));
    // The copy's name is numbered among the copies' names: the first one.
    assert_eq!(mir.functions[2].name, SymbolId(0));
    assert_eq!(mir.symbols.lookup(SymbolId(4)), Some("id$0"));
    assert_eq!(mir.symbols.len(), 5);
    assert!(mir.verify().is_ok());
}

#[test]
fn repeated_instantiation_is_built_once() {
    let hir = with_identity(vec![
        stmt(call(1, vec![num(1)], vec![], HirType::I64)),
        stmt(call(1, vec![num(2)], vec![], HirType::I64)),
        stmt(call(1, vec![num(3)], vec![HirType::I64], HirType::I64)),
    ]);
    let mir = monomorphize(&hir).expect("monomorphize");
    assert_eq!(mir.functions.len(), 3);
}

#[test]
fn distinct_instantiations_are_numbered_in_order() {
    let hir = with_identity(vec![
        stmt(call(1, vec![num(1)], vec![], HirType::I64)),
        stmt(call(1, vec![flag(true)], vec![], HirType::Bool)),
    ]);
    let mir = monomorphize(&hir).expect("monomorphize");
    assert_eq!(mir.functions.len(), 4);
    assert_eq!(mir.functions[2].def_id, DefId(2));
    assert_eq!(mir.functions[3].def_id, DefId(3));
    assert_eq!(mir.functions[2].name, SymbolId(0));
    assert_eq!(mir.functions[3].name, SymbolId(1));
    assert_eq!(mir.symbols.lookup(SymbolId(4)), Some("id$0"));
    assert_eq!(mir.symbols.lookup(SymbolId(5)), Some("id$1"));
    assert!(mir.verify().is_ok());
}

#[test]
fn type_arguments_on_a_plain_function_are_refused() {
    let hir = with_identity(vec![stmt(call(0, vec![], vec![HirType::I64], HirType::Unit))]);
    match monomorphize(&hir) {
        Err(CompilerError::Semantic(m)) => assert_eq!(m, "function main is not generic but received 1 type arguments"),
        other => panic!("unexpected {:?}", other.map(|_| ())),
    }
}

#[test]
fn wrong_number_of_type_arguments_is_refused() {
    let hir = with_identity(vec![stmt(call(1, vec![num(1)], vec![HirType::I64, HirType::Bool], HirType::I64))]);
    match monomorphize(&hir) {
        Err(CompilerError::Semantic(m)) => assert_eq!(m, "function id expects 1 type arguments, got 2"),
        other => panic!("unexpected {:?}", other.map(|_| ())),
    }
}

#[test]
fn uninferable_type_arguments_are_refused() {
    let hir = with_identity(vec![stmt(call(1, vec![], vec![], HirType::I64))]);
    match monomorphize(&hir) {
        Err(CompilerError::Semantic(m)) => {
            assert_eq!(m, "function id expects 1 type arguments; provide them via `f::<T>(...)`")
        }
        other => panic!("unexpected {:?}", other.map(|_| ())),
    }
}

#[test]
fn first_bad_site_in_evaluation_order_is_reported() {
    // The argument's own site comes before the outer call's.
    let inner = call(0, vec![], vec![HirType::Bool], HirType::Unit);
    let outer = call(1, vec![inner], vec![HirType::I64, HirType::I64], HirType::I64);
    let hir = with_identity(vec![stmt(outer)]);
    match monomorphize(&hir) {
        Err(CompilerError::Semantic(m)) => assert_eq!(m, "function main is not generic but received 1 type arguments"),
        other => panic!("unexpected {:?}", other.map(|_| ())),
    }
}

#[test]
fn calls_of_unknown_functions_are_ignored() {
    let hir = with_identity(vec![stmt(call(9, vec![], vec![HirType::I64], HirType::Unit))]);
    let mir = monomorphize(&hir).expect("monomorphize");
    assert_eq!(mir.functions.len(), 2);
}

#[test]
fn lowering_failure_of_the_generic_function_stops_the_run() {
    let mut syms = SymbolInterner::default();
    let main = syms.intern("main");
    let g = syms.intern("g");
    let t = syms.intern("T");
    let x = syms.intern("x");
    let y = syms.intern("y");
    let main_fn = func(0, main, vec![], vec![], HirType::Unit, vec![stmt(call(1, vec![num(1)], vec![], HirType::I64))]);
    let g_fn = func(1, g, vec![t], vec![(x, HirType::Generic(t))], HirType::I64, vec![stmt(var(y, HirType::I64))]);
    let hir = program(syms, vec![main_fn, g_fn], vec![]);
    match monomorphize(&hir) {
        Err(CompilerError::Codegen(m)) => assert_eq!(m, "undefined variable: y"),
        other => panic!("unexpected {:?}", other.map(|_| ())),
    }
}

/// `struct Pair<T> { first: T }` with id 0, and `main` building `body`.
fn with_pair(literal_args: Vec<HirType>) -> HirProgram {
    let mut syms = SymbolInterner::default();
    let main = syms.intern("main");
    let pair = syms.intern("Pair");
    let t = syms.intern("T");
    let first = syms.intern("first");
    let lit = e(
        HirExprKind::StructLiteral { name: pair, fields: vec![(first, Box::new(num(5)))], type_args: literal_args },
        HirType::Unit,
    );
    let main_fn = func(0, main, vec![], vec![], HirType::Unit, vec![stmt(lit)]);
    let pair_def = StructDef {
        def_id: DefId(0),
        name: pair,
        generic_params: vec![t],
        fields: vec![(first, HirType::Generic(t))],
        span: sp(),
        module: ModuleId(0),
        visibility: Visibility::Public,
    };
    program(syms, vec![main_fn], vec![pair_def])
}

#[test]
fn generic_struct_literal_is_copied_twice() {
    let hir = with_pair(vec![HirType::I64]);
    let mir = monomorphize(&hir).expect("monomorphize");
    assert_eq!(mir.structs.len(), 3);
    for (k, s) in mir.structs[1..].iter().enumerate() {
        assert_eq!(s.def_id, DefId(1 + k as u32));
        assert!(s.generic_params.is_empty());
        assert_eq!(s.fields.len(), 1);
        assert_eq!(s.fields[0].1, HirType::I64);
        assert_eq!(s.visibility, Visibility::Public);
    }
    // Named `Pair$0` and `Pair$1` among the copies' names.
    assert_eq!(mir.structs[1].name, SymbolId(0));
    assert_eq!(mir.structs[2].name, SymbolId(1));
    assert_eq!(mir.structs[0].generic_params.len(), 1);
    assert_eq!(mir.functions.len(), 1);
}

#[test]
fn struct_literal_with_wrong_argument_count_is_refused() {
    let hir = with_pair(vec![HirType::I64, HirType::Bool]);
    match monomorphize(&hir) {
        Err(CompilerError::Semantic(m)) => assert_eq!(m, "struct Pair expects 1 type arguments, got 2"),
        other => panic!("unexpected {:?}", other.map(|_| ())),
    }
}

#[test]
fn collection_groups_by_definition() {
    let hir = with_identity(vec![
        stmt(call(1, vec![num(1)], vec![], HirType::I64)),
        stmt(call(1, vec![flag(false)], vec![], HirType::Bool)),
        stmt(call(1, vec![num(7)], vec![], HirType::I64)),
    ]);
    let col = match collect_program(&hir) {
        Ok(c) => c,
        Err(_) => panic!("collection failed"),
    };
    assert_eq!(col.calls.len(), 1);
    assert_eq!(col.calls[0].0, DefId(1));
    assert_eq!(col.calls[0].1.len(), 2);
    assert_eq!(col.calls[0].1[0].args, vec![HirType::I64]);
    assert_eq!(col.calls[0].1[1].args, vec![HirType::Bool]);
    assert!(col.structs.is_empty());
}

#[test]
fn plain_program_monomorphizes_as_it_lowers() {
    let mut syms = SymbolInterner::default();
    let main = syms.intern("main");
    let helper = syms.intern("helper");
    let main_fn = func(0, main, vec![], vec![], HirType::Unit, vec![stmt(call(1, vec![], vec![], HirType::I64))]);
    let helper_fn = func(1, helper, vec![], vec![], HirType::I64, vec![stmt(num(3))]);
    let hir = program(syms, vec![main_fn, helper_fn], vec![]);
    let a = monomorphize(&hir).expect("monomorphize");
    let b = lower_program(&hir).expect("lower");
    assert_eq!(a.functions.len(), b.functions.len());
    for (x, y) in a.functions.iter().zip(b.functions.iter()) {
        assert_eq!(x.def_id, y.def_id);
        assert_eq!(x.name, y.name);
    }
    assert_eq!(a.symbols.len(), b.symbols.len());
    assert_eq!(a.structs.len(), b.structs.len());
}

#[test]
fn lower_one_function_lowers_a_copy() {
    let hir = with_identity(vec![]);
    let f = &hir.functions[1];
    let mf = lower_one_function(&hir, f).expect("lowering");
    assert_eq!(mf.def_id, DefId(1));
    assert_eq!(mf.name, f.name);
}

#[test]
fn struct_copy_keeps_every_field() {
    let hir = with_pair(vec![HirType::I64]);
    let c = copy_struct_def(&hir.structs[0]);
    assert_eq!(c.def_id, hir.structs[0].def_id);
    assert_eq!(c.name, hir.structs[0].name);
    assert_eq!(c.generic_params, hir.structs[0].generic_params);
    assert_eq!(c.fields, hir.structs[0].fields);
}

#[test]
fn program_lookups_by_name_find_the_first_match() {
    let hir = with_identity(vec![]);
    assert_eq!(hir.function_by_name("id").map(|f| f.def_id), Some(DefId(1)));
    assert_eq!(hir.function_by_name("main").map(|f| f.def_id), Some(DefId(0)));
    assert!(hir.function_by_name("T").is_none());
    assert!(hir.function_by_name("missing").is_none());
    assert!(hir.struct_by_name("id").is_none());
    assert!(hir.enum_by_name("id").is_none());
}

#[test]
fn struct_and_enum_lookups_by_name() {
    let mut syms = SymbolInterner::default();
    let point = syms.intern("Point");
    let color = syms.intern("Color");
    let red = syms.intern("Red");
    let pd = StructDef {
        def_id: DefId(0),
        name: point,
        generic_params: vec![],
        fields: vec![],
        span: sp(),
        module: ModuleId(0),
        visibility: Visibility::Private,
    };
    let mut hir = program(syms, vec![], vec![pd]);
    hir.enums.push(stnx::hir::EnumDef {
        def_id: DefId(0),
        name: color,
        generic_params: vec![],
        variants: vec![red],
        span: sp(),
        module: ModuleId(0),
        visibility: Visibility::Public,
    });
    assert_eq!(hir.struct_by_name("Point").map(|d| d.name), Some(point));
    assert!(hir.struct_by_name("Color").is_none());
    assert_eq!(hir.enum_by_name("Color").map(|d| d.variants.len()), Some(1));
    assert!(hir.enum_by_name("Point").is_none());
}

#[test]
fn range_to_span_measures_the_range() {
    let s = stnx::hir::lower::range_to_span(&(3..10));
    assert_eq!(s, SourceSpan { offset: 3, len: 7 });
    let empty = stnx::hir::lower::range_to_span(&(5..5));
    assert_eq!(empty, SourceSpan { offset: 5, len: 0 });
}
