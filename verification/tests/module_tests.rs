use std::collections::HashMap;
use stnx::hir::{SymbolId, SymbolInterner};
use stnx::module::graph::{extract_mod_declarations_from_ast, Module, ModuleGraph};
use stnx::module::{extract_mod_declarations, ModuleId, ModulePath};
use stnx::module::discover::{Discovery, DiscoveryStep};
use stnx::error::CompilerError;

// --- ModuleId ---

#[test]
fn test_module_id_creation() {
    let id = ModuleId::new(42);
    assert_eq!(id.0, 42);
}

#[test]
fn test_module_id_from_u32() {
    let id = ModuleId::from(7u32);
    assert_eq!(id.0, 7);
}

#[test]
fn test_module_id_to_u32() {
    let id = ModuleId(5);
    let val: u32 = id.into();
    assert_eq!(val, 5);
}

#[test]
fn test_module_id_equality() {
    assert_eq!(ModuleId(3), ModuleId(3));
    assert_ne!(ModuleId(3), ModuleId(4));
}

#[test]
fn test_module_id_root_constant() {
    assert_eq!(ModuleId::root(), ModuleId(0));
}

#[test]
fn test_module_id_ordering() {
    assert!(ModuleId(1) < ModuleId(2));
    assert!(ModuleId(0) < ModuleId(1));
    assert!(ModuleId(2) > ModuleId::root());
}

#[test]
fn test_module_id_hash() {
    let mut map: HashMap<ModuleId, &str> = HashMap::new();
    let id1 = ModuleId(1);
    let id2 = ModuleId(2);
    map.insert(id1, "a");
    map.insert(id2, "b");
    assert_eq!(map.get(&id1), Some(&"a"));
    assert_eq!(map.get(&id2), Some(&"b"));
}

// --- ModulePath ---

#[test]
fn test_module_path_empty() {
    let path = ModulePath::new();
    assert!(path.is_empty());
    assert_eq!(path.len(), 0);
    assert_eq!(path.segments().len(), 0);
}

#[test]
fn test_module_path_from_strings() {
    let mut interner = SymbolInterner::default();
    let path = ModulePath::from_strings(&mut interner, &["math", "utils"]);

    assert!(!path.is_empty());
    assert_eq!(path.len(), 2);
    assert_eq!(path.name(&interner), Some("utils"));
}

#[test]
fn test_module_path_name_root() {
    let path = ModulePath::new();
    let interner = SymbolInterner::default();
    assert_eq!(path.name(&interner), None);
}

#[test]
fn test_module_path_parent() {
    let mut interner = SymbolInterner::default();
    let path = ModulePath::from_strings(&mut interner, &["graphics", "math"]);
    let parent = path.parent().unwrap();

    assert_eq!(parent.len(), 1);
    assert_eq!(parent.name(&interner), Some("graphics"));

    let root = ModulePath::new();
    assert!(root.parent().is_none());
}

#[test]
fn test_module_path_child() {
    let mut interner = SymbolInterner::default();
    let root = ModulePath::new();
    let segment = interner.intern("foo");
    let child = root.child(segment);

    assert_eq!(child.len(), 1);
    assert_eq!(child.name(&interner), Some("foo"));

    assert!(root.is_empty());
}

#[test]
fn test_module_path_is_descendant_of() {
    let mut interner = SymbolInterner::default();
    let root = ModulePath::new();
    let foo = root.child(interner.intern("foo"));
    let foo_bar = foo.child(interner.intern("bar"));
    let baz = root.child(interner.intern("baz"));

    assert!(root.is_descendant_of(&root));
    assert!(foo.is_descendant_of(&root));
    assert!(foo_bar.is_descendant_of(&root));
    assert!(foo_bar.is_descendant_of(&foo));
    assert!(!foo.is_descendant_of(&foo_bar));
    assert!(!baz.is_descendant_of(&foo));
}

#[test]
fn test_module_path_equality() {
    let mut interner1 = SymbolInterner::default();
    let mut interner2 = SymbolInterner::default();

    let p1 = ModulePath::from_strings(&mut interner1, &["a", "b"]);
    let p2 = ModulePath::from_strings(&mut interner2, &["a", "b"]);

    assert_eq!(p1.segments(), p2.segments());
    assert_eq!(p1, p2);
}

#[test]
fn test_module_path_default() {
    let path = ModulePath::default();
    assert!(path.is_empty());
}

#[test]
fn test_module_path_display_root() {
    let path = ModulePath::new();
    assert_eq!(path.to_string(), "crate");
}

// --- mod declaration extraction ---

#[test]
fn test_extract_mod_declarations_basic() {
    let source = "mod io\nmod math\nfn main() -> i64 {}\n";
    let mods = extract_mod_declarations(source);
    assert_eq!(mods, vec!["io", "math"]);
}

#[test]
fn test_extract_mod_declarations_indented() {
    let source = "    mod io\n  \nmod math\n";
    let mods = extract_mod_declarations(source);
    assert_eq!(mods, vec!["io", "math"]);
}

#[test]
fn test_extract_mod_declarations_pub_mod() {
    let source = "pub mod io\nmod math\n";
    let mods = extract_mod_declarations(source);
    assert_eq!(mods, vec!["io", "math"]);
}

#[test]
fn test_extract_mod_declarations_with_comments() {
    let source = "// mod ignored\nmod real_io\n";
    let mods = extract_mod_declarations(source);
    assert_eq!(mods, vec!["real_io"]);
}

#[test]
fn test_extract_mod_declarations_none() {
    let source = "fn main() -> i64 {}\nlet x = 42\n";
    let mods = extract_mod_declarations(source);
    assert!(mods.is_empty());
}

#[test]
fn test_extract_mod_declarations_nested() {
    let source = "mod utils\nmod graphics_math\n";
    let mods = extract_mod_declarations(source);
    assert_eq!(mods, vec!["utils", "graphics_math"]);
}

// --- Module and module graph ---


#[test]
fn test_module_new() {
    let mut interner = SymbolInterner::default();
    let path = ModulePath::from_strings(&mut interner, &["foo"]);
    let file_path = "src/foo.stnx".to_string();
    let module = Module::new(ModuleId::new(1), path, file_path.clone());

    assert_eq!(module.id, ModuleId(1));
    assert!(!module.is_root());
    assert!(module.ast.is_none());
    assert_eq!(module.parent, None);
}

#[test]
fn test_module_new_root() {
    let path = ModulePath::new();
    let file_path = "src/main.stnx".to_string();
    let module = Module::new(ModuleId::root(), path, file_path);

    assert!(module.is_root());
    assert_eq!(module.name(&SymbolInterner::default()), "crate");
}

#[test]
fn test_module_dir() {
    let path = ModulePath::new();
    let file_path = "src/main.stnx".to_string();
    let module = Module::new(ModuleId::root(), path, file_path);

    assert_eq!(module.dir(), "src");
}

#[test]
fn module_dir_of_a_bare_file_name_is_empty() {
    let module = Module::new(ModuleId::root(), ModulePath::new(), "main.stnx".to_string());
    assert_eq!(module.dir(), "");
}

#[test]
fn test_module_graph_new() {
    let graph = ModuleGraph::new();
    assert!(graph.is_empty());
    assert_eq!(graph.len(), 0);
    assert_eq!(graph.root_id(), ModuleId::root());
}

#[test]
fn test_module_graph_add_module() {
    let mut graph = ModuleGraph::new();
    let mut interner = SymbolInterner::default();
    let path = ModulePath::from_strings(&mut interner, &["foo"]);
    let module = Module::new(ModuleId::new(0), path.clone(), "src/foo.stnx".to_string());

    let id = graph.add_module(module);
    assert_eq!(id, ModuleId(0));
    assert_eq!(graph.len(), 1);
    assert_eq!(graph.get_module(id).unwrap().path, path);
}

#[test]
fn test_module_graph_find_module() {
    let mut graph = ModuleGraph::new();
    let path = ModulePath::from_strings(&mut graph.symbol_interner, &["foo", "bar"]);
    let module = Module::new(ModuleId::new(0), path.clone(), "src/foo/bar.stnx".to_string());

    let id = graph.add_module(module);
    assert_eq!(graph.find_module(&path), Some(id));
    assert_eq!(graph.find_module(&ModulePath::new()), None);
}

#[test]
fn test_module_graph_format_path() {
    let mut graph = ModuleGraph::new();
    let path = ModulePath::from_strings(&mut graph.symbol_interner, &["graphics", "math"]);
    assert_eq!(graph.format_path(&path), "crate::graphics::math");
}

#[test]
fn test_module_graph_format_path_root() {
    let graph = ModuleGraph::new();
    let path = ModulePath::new();
    let formatted = graph.format_path(&path);
    assert_eq!(formatted, "crate");
}

#[test]
fn module_graph_format_path_with_unknown_segment() {
    let graph = ModuleGraph::new();
    let path = ModulePath::from_segments(vec![SymbolId(3)]);
    assert_eq!(graph.format_path(&path), "crate::<unknown>");
}

#[test]
fn test_module_graph_resolve_path() {
    let mut graph = ModuleGraph::new();
    let root_path = ModulePath::new();
    let root_module = Module::new(ModuleId::root(), root_path.clone(), "src/main.stnx".to_string());
    let root_id = graph.add_module(root_module);

    let foo_seg = graph.symbol_interner.intern("foo");
    let foo_path = root_path.child(foo_seg);
    let foo_module = Module::new(ModuleId::new(1), foo_path.clone(), "src/foo.stnx".to_string());
    let foo_id = graph.add_module(foo_module);
    assert_eq!(foo_id, ModuleId(1));

    let result = graph.resolve_path(root_id, &[foo_seg]);
    assert_eq!(result, Some(foo_id));
}

#[test]
fn resolve_path_from_unknown_module_is_none() {
    let graph = ModuleGraph::new();
    assert_eq!(graph.resolve_path(ModuleId(4), &[]), None);
}

fn graph_of(n: u32, edges: Vec<(u32, Vec<u32>)>) -> ModuleGraph {
    let mut graph = ModuleGraph::new();
    for i in 0..n {
        let path = ModulePath::from_segments(vec![SymbolId(i)]);
        graph.add_module(Module::new(ModuleId(i), path, format!("m{}.stnx", i)));
    }
    graph.imports = edges.into_iter().map(|(a, bs)| (ModuleId(a), bs.into_iter().map(ModuleId).collect())).collect();
    graph
}

#[test]
fn detect_cycle_finds_a_cycle() {
    let graph = graph_of(3, vec![(0, vec![1]), (1, vec![2]), (2, vec![1])]);
    assert_eq!(graph.detect_cycle(), Some(vec![ModuleId(1), ModuleId(2)]));
}

#[test]
fn detect_cycle_finds_a_self_import() {
    let graph = graph_of(2, vec![(1, vec![1])]);
    assert_eq!(graph.detect_cycle(), Some(vec![ModuleId(1)]));
}

#[test]
fn detect_cycle_accepts_a_dag() {
    let graph = graph_of(4, vec![(0, vec![1, 2]), (1, vec![3]), (2, vec![3])]);
    assert_eq!(graph.detect_cycle(), None);
}

#[test]
fn detect_cycle_ignores_cycles_out_of_reach() {
    // Modules 5 and 6 import each other, but no module reaches them.
    let graph = graph_of(2, vec![(5, vec![6]), (6, vec![5])]);
    assert_eq!(graph.detect_cycle(), None);
}

#[test]
fn mod_declarations_fall_back_to_the_text() {
    let mods = extract_mod_declarations_from_ast(None, "mod a\npub mod b\n// mod c\n");
    assert_eq!(mods, vec!["a".to_string(), "b".to_string()]);
}

#[test]
fn get_module_mut_changes_one_module_in_place() {
    let mut graph = ModuleGraph::new();
    let mut interner = SymbolInterner::default();
    let path = ModulePath::from_strings(&mut interner, &["foo"]);
    let id = graph.add_module(Module::new(ModuleId::new(0), path.clone(), "src/foo.stnx".to_string()));
    match graph.get_module_mut(id) {
        Some(m) => m.file_path = "src/bar.stnx".to_string(),
        None => panic!("module should exist"),
    }
    assert_eq!(graph.get_module(id).unwrap().file_path, "src/bar.stnx");
    assert_eq!(graph.get_module(id).unwrap().path, path);
    assert!(graph.get_module_mut(ModuleId(7)).is_none());
    assert_eq!(graph.len(), 1);
}

fn resolve_of(step: DiscoveryStep) -> (String, String) {
    match step {
        DiscoveryStep::Resolve { dir, name } => (dir, name),
        DiscoveryStep::Done => panic!("expected a module to look for"),
    }
}

#[test]
fn discovery_follows_declarations_in_order_and_children_last_found_first() {
    let mut d = Discovery::start("src/main.stnx".to_string(), "mod a\nmod b\nfn main() -> i64 { 0 }\n");
    assert!(d.graph.get_module(ModuleId(0)).unwrap().ast.is_some());
    assert_eq!(resolve_of(d.next_step()), ("src".to_string(), "a".to_string()));
    d.child_found("src/a.stnx".to_string(), "mod c\n");
    assert_eq!(resolve_of(d.next_step()), ("src".to_string(), "b".to_string()));
    d.child_found("src/b.stnx".to_string(), "fn f() -> i64 { 1 }\n");
    // `b` was found last, so it is expanded first; it declares nothing.
    // Then `a`, which declares `c`.
    assert_eq!(resolve_of(d.next_step()), ("src".to_string(), "c".to_string()));
    d.child_found("src/a/c.stnx".to_string(), "");
    assert!(matches!(d.next_step(), DiscoveryStep::Done));
    assert_eq!(d.graph.len(), 4);
    let c = d.graph.get_module(ModuleId(3)).unwrap();
    assert_eq!(c.parent, Some(ModuleId(1)));
    assert_eq!(d.graph.format_path(&c.path), "crate::a::c");
    assert_eq!(d.graph.get_module(ModuleId(2)).unwrap().parent, Some(ModuleId(0)));
    assert_eq!(d.graph.get_module(ModuleId(2)).unwrap().file_path, "src/b.stnx");
}

#[test]
fn discovery_reports_a_missing_module() {
    let mut d = Discovery::start("src/main.stnx".to_string(), "mod gone\n");
    let _ = resolve_of(d.next_step());
    match d.child_missing() {
        CompilerError::Config(m) => assert_eq!(m, "unresolved module 'gone': file not found in src"),
        other => panic!("expected a configuration error, got {:?}", other),
    }
}

#[test]
fn discovery_of_unparsable_root_falls_back_to_text_scan() {
    let mut d = Discovery::start("main.stnx".to_string(), "mod x\nthis is not valid (\n");
    assert!(d.graph.get_module(ModuleId(0)).unwrap().ast.is_none());
    assert_eq!(d.graph.get_module(ModuleId(0)).unwrap().mod_declarations, vec!["x".to_string()]);
    let (dir, name) = resolve_of(d.next_step());
    assert_eq!(name, "x");
    assert_eq!(dir, "");
}

#[test]
fn root_program_is_the_parsed_root_or_empty() {
    let d = Discovery::start("main.stnx".to_string(), "fn main() -> i64 { 0 }\n");
    let p = d.graph.root_program();
    assert_eq!(p.functions.len(), 1);
    assert_eq!(p.functions[0].name, "main");
    let bad = Discovery::start("main.stnx".to_string(), "fn (\n");
    assert_eq!(bad.graph.root_program().items.len(), 0);
}

#[test]
fn module_paths_order_by_length_then_segments() {
    let root = ModulePath::new();
    let a = ModulePath::from_segments(vec![SymbolId(5)]);
    let b = ModulePath::from_segments(vec![SymbolId(7)]);
    let ab = ModulePath::from_segments(vec![SymbolId(5), SymbolId(1)]);
    let aa = ModulePath::from_segments(vec![SymbolId(5), SymbolId(0)]);
    assert!(root < a);
    assert!(a < b);
    assert!(b < ab);
    assert!(aa < ab);
    assert_eq!(a.partial_cmp(&a.clone()), Some(std::cmp::Ordering::Equal));
    assert_eq!(ab.partial_cmp(&aa), Some(std::cmp::Ordering::Greater));
}

#[test]
fn discovery_of_nested_directory_modules() {
    let mut d = Discovery::start("proj/main.stnx".to_string(), "mod utils\nfn main() -> i64 { return 0 }");
    assert_eq!(resolve_of(d.next_step()), ("proj".to_string(), "utils".to_string()));
    d.child_found("proj/utils/mod.stnx".to_string(), "mod math\n");
    assert_eq!(resolve_of(d.next_step()), ("proj/utils".to_string(), "math".to_string()));
    d.child_found("proj/utils/math.stnx".to_string(), "fn add(a: i64, b: i64) -> i64 {}");
    assert!(matches!(d.next_step(), DiscoveryStep::Done));
    let graph = d.graph;
    assert_eq!(graph.len(), 3);
    let mut interner = SymbolInterner::default();
    let math_path = ModulePath::from_strings(&mut interner, &["utils", "math"]);
    let math_id = graph.find_module(&math_path).expect("math module should be in graph");
    let math_module = graph.get_module(math_id).unwrap();
    assert_eq!(math_module.file_path, "proj/utils/math.stnx");
    let utils_path = ModulePath::from_strings(&mut interner, &["utils"]);
    let utils_id = graph.find_module(&utils_path).expect("utils module should be in graph");
    assert_eq!(graph.get_module(utils_id).unwrap().parent, Some(ModuleId::root()));
    assert_eq!(math_module.parent, Some(utils_id));
}

#[test]
fn discovery_error_names_the_unresolved_module() {
    let mut d = Discovery::start("proj/main.stnx".to_string(), "mod nonexistent\nfn main() -> i64 { return 0 }");
    let _ = resolve_of(d.next_step());
    let err = d.child_missing().to_string();
    assert!(err.contains("nonexistent"), "error should mention the module name: {}", err);
}

#[test]
fn test_extract_mod_declarations_ascii_identifiers() {
    let source = "mod ab-c\nmod _x1 y\nmod 9x\nmod \nmod \u{e9}a\nmod a\u{e9}\n";
    let mods = extract_mod_declarations(source);
    assert_eq!(mods, vec!["ab", "_x1", "a"]);
}

#[test]
fn test_extract_mod_declarations_unicode_indent() {
    let source = "\u{3000}\tmod wide\n\u{a0}pub mod spaced\n\u{200b}mod zero_width\n";
    let mods = extract_mod_declarations(source);
    assert_eq!(mods, vec!["wide", "spaced"]);
}

#[test]
fn detect_cycle_closing_a_diamond() {
    let graph = graph_of(4, vec![(0, vec![1, 2]), (1, vec![3]), (2, vec![3]), (3, vec![0])]);
    assert_eq!(graph.detect_cycle(), Some(vec![ModuleId(0), ModuleId(1), ModuleId(3)]));
}

#[test]
fn detect_cycle_found_from_a_later_root() {
    // Module 0 is acyclic; the search from module 2 finds 2 -> 3 -> 2,
    // given from the module it entered first.
    let graph = graph_of(4, vec![(0, vec![1]), (2, vec![3]), (3, vec![2])]);
    assert_eq!(graph.detect_cycle(), Some(vec![ModuleId(2), ModuleId(3)]));
}
