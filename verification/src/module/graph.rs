//! The module graph: every module of a crate, found by id and by path,
//! and the import edges between modules.
use vstd::prelude::*;
use crate::ast::{ItemKind, Program, Item};
use crate::module::{extract_mod_declarations, mod_decls_from};
use crate::hir::symbol::{SymbolId, SymbolInterner};
use crate::module::{ModuleId, ModulePath};
use crate::parser::view::{function_v, items_v};

verus! {

/// What `std::path::Path::parent` gives for a path, as text.
pub uninterp spec fn path_parent_of(p: Seq<char>) -> Option<Seq<char>>;

/// `Path::parent` of a path given as text.  The parent of a UTF-8 path is a
/// prefix of it, so it converts back to text without loss.
#[verifier::external_body]
fn path_parent(p: &str) -> (r: Option<String>)
    ensures
        r is Some <==> path_parent_of(p@) is Some,
        r matches Some(d) ==> path_parent_of(p@) == Some(d@),
{
    match std::path::Path::new(p).parent() {
        Some(d) => Some(d.to_string_lossy().into_owned()),
        None => None,
    }
}

/// One module of the graph: its id, its path in the crate, its source file,
/// its parsed syntax once loaded, its parent, and the `mod` declarations
/// found in its source.
#[derive(Debug)]
pub struct Module {
    pub id: ModuleId,
    pub path: ModulePath,
    pub file_path: String,
    pub ast: Option<Program>,
    pub parent: Option<ModuleId>,
    pub mod_declarations: Vec<String>,
}

impl Module {
    /// A module with nothing loaded yet: no syntax, no parent, no `mod`
    /// declarations.
    pub fn new(id: ModuleId, path: ModulePath, file_path: String) -> (r: Module)
        ensures
            r.id == id,
            r.path@ == path@,
            r.file_path@ == file_path@,
            r.ast is None,
            r.parent is None,
            r.mod_declarations@.len() == 0,
    {
        Module { id, path, file_path, ast: None, parent: None, mod_declarations: Vec::new() }
    }

    /// The module's name: its last path segment, or `crate` for the root.
    pub fn name(&self, interner: &SymbolInterner) -> (r: String)
        ensures
            r@ == (if self.path@.len() > 0 && self.path@.last().0 < interner@.len() {
                interner@[self.path@.last().0 as int]
            } else {
                "crate"@
            }),
    {
        match self.path.name(interner) {
            Some(t) => t.to_string(),
            None => "crate".to_string(),
        }
    }

    /// The directory of the module's source file, against which its child
    /// modules' files are resolved: the file's parent, or `.`.
    pub fn dir(&self) -> (r: String)
        ensures
            r@ == match path_parent_of(self.file_path@) {
                Some(d) => d,
                None => "."@,
            },
    {
        match path_parent(self.file_path.as_str()) {
            Some(d) => d,
            None => ".".to_string(),
        }
    }

    /// Whether this is the root (crate) module.
    pub fn is_root(&self) -> (r: bool)
        ensures
            r == (self.id.0 == 0),
    {
        self.id.0 == 0
    }
}

/// The module a path is indexed under: the latest entry for it.
pub open spec fn indexed(idx: Seq<(Seq<SymbolId>, ModuleId)>, p: Seq<SymbolId>) -> Option<ModuleId>
    decreases idx.len(),
{
    if idx.len() == 0 {
        None
    } else if idx.last().0 == p {
        Some(idx.last().1)
    } else {
        indexed(idx.drop_last(), p)
    }
}

/// The modules `m` imports: the latest entry for `m`, as a map's later
/// insert replaces an earlier one, or none.
pub open spec fn imports_of(imports: Seq<(ModuleId, Vec<ModuleId>)>, m: ModuleId) -> Seq<ModuleId>
    decreases imports.len(),
{
    if imports.len() == 0 {
        Seq::empty()
    } else if imports.last().0 == m {
        imports.last().1@
    } else {
        imports_of(imports.drop_last(), m)
    }
}

/// The name a path segment is shown under.
pub open spec fn segment_name(symbols: Seq<Seq<char>>, s: SymbolId) -> Seq<char> {
    if s.0 < symbols.len() {
        symbols[s.0 as int]
    } else {
        "<unknown>"@
    }
}

/// The segments' names joined by `::`.
pub open spec fn joined(symbols: Seq<Seq<char>>, segs: Seq<SymbolId>) -> Seq<char>
    decreases segs.len(),
{
    if segs.len() == 0 {
        Seq::empty()
    } else if segs.len() == 1 {
        segment_name(symbols, segs[0])
    } else {
        joined(symbols, segs.drop_last()) + "::"@ + segment_name(symbols, segs.last())
    }
}

/// A path as shown: `crate`, or `crate::` and its segments' names.
pub open spec fn shown_path(symbols: Seq<Seq<char>>, segs: Seq<SymbolId>) -> Seq<char> {
    if segs.len() == 0 {
        "crate"@
    } else {
        "crate::"@ + joined(symbols, segs)
    }
}

/// The modules of a crate.  Each module is found by its id (its position)
/// and by its path; `imports` lists, per module, the modules it imports.
#[derive(Debug)]
pub struct ModuleGraph {
    pub modules: Vec<Module>,
    pub root: ModuleId,
    pub symbol_interner: SymbolInterner,
    pub module_index: Vec<(ModulePath, ModuleId)>,
    pub imports: Vec<(ModuleId, Vec<ModuleId>)>,
}

impl ModuleGraph {
    /// The path index: each added module's path and id, in order.
    pub closed spec fn index(&self) -> Seq<(Seq<SymbolId>, ModuleId)> {
        self.module_index@.map_values(|e: (ModulePath, ModuleId)| (e.0@, e.1))
    }

    /// An empty graph.
    pub fn new() -> (r: ModuleGraph)
        ensures
            r.modules@.len() == 0,
            r.root.0 == 0,
            r.symbol_interner@.len() == 0,
            r.symbol_interner.wf(),
            r.index().len() == 0,
            r.imports@.len() == 0,
    {
        ModuleGraph::with_interner(SymbolInterner::default())
    }

    /// An empty graph sharing the given interner.
    pub fn with_interner(interner: SymbolInterner) -> (r: ModuleGraph)
        ensures
            r.modules@.len() == 0,
            r.root.0 == 0,
            r.symbol_interner@ == interner@,
            r.symbol_interner == interner,
            r.index().len() == 0,
            r.imports@.len() == 0,
    {
        let r = ModuleGraph {
            modules: Vec::new(),
            root: ModuleId::root(),
            symbol_interner: interner,
            module_index: Vec::new(),
            imports: Vec::new(),
        };
        assert(r.index() =~= Seq::<(Seq<SymbolId>, ModuleId)>::empty());
        r
    }

    /// Add a module; it gets the next id, and is indexed by its path.
    pub fn add_module(&mut self, module: Module) -> (r: ModuleId)
        ensures
            r.0 == old(self).modules@.len() as u32,
            final(self).modules@ == old(self).modules@.push(module),
            final(self).index() == old(self).index().push((module.path@, r)),
            final(self).root == old(self).root,
            final(self).symbol_interner == old(self).symbol_interner,
            final(self).imports == old(self).imports,
    {
        let id = ModuleId(self.modules.len() as u32);
        let path = module.path.copy();
        self.module_index.push((path, id));
        self.modules.push(module);
        assert(self.index() =~= old(self).index().push((module.path@, id)));
        id
    }

    /// The module indexed under `path`, if any.
    pub fn find_module(&self, path: &ModulePath) -> (r: Option<ModuleId>)
        ensures
            r == indexed(self.index(), path@),
    {
        let ghost idx = self.index();
        let mut i = self.module_index.len();
        assert(idx.take(i as int) == idx);
        while i > 0
            invariant
                i <= self.module_index@.len(),
                idx == self.index(),
                indexed(idx, path@) == indexed(idx.take(i as int), path@),
            decreases i,
        {
            proof {
                assert(idx.take(i as int).drop_last() == idx.take(i - 1));
                assert(idx.take(i as int).last() == idx[i - 1]);
            }
            if self.module_index[i - 1].0.same_path(path) {
                return Some(self.module_index[i - 1].1);
            }
            i = i - 1;
        }
        None
    }

    /// The module with the given id.
    pub fn get_module(&self, id: ModuleId) -> (r: Option<&Module>)
        ensures
            r is Some <==> id.0 < self.modules@.len(),
            r matches Some(m) ==> *m == self.modules@[id.0 as int],
    {
        if (id.0 as usize) < self.modules.len() {
            Some(&self.modules[id.0 as usize])
        } else {
            None
        }
    }

    /// The module with the given id, to change in place.  The other parts of
    /// the graph stay as they are.
    pub fn get_module_mut(&mut self, id: ModuleId) -> (r: Option<&mut Module>)
        ensures
            r is Some <==> id.0 < old(self).modules@.len(),
            r is None ==> *final(self) == *old(self),
            r matches Some(m) ==> *m == old(self).modules@[id.0 as int],
            r matches Some(m) ==> final(self).modules@ == old(self).modules@.update(id.0 as int, *final(m)),
            final(self).root == old(self).root,
            final(self).symbol_interner == old(self).symbol_interner,
            final(self).module_index == old(self).module_index,
            final(self).imports == old(self).imports,
    {
        if (id.0 as usize) < self.modules.len() {
            Some(&mut self.modules[id.0 as usize])
        } else {
            None
        }
    }

    /// The root module's program: its syntax tree, or the empty program
    /// when its source did not parse.
    pub fn root_program(&self) -> (r: Program)
        requires
            self.modules@.len() > 0,
        ensures
            match self.modules@[0].ast {
                Some(p) => {
                    &&& items_v(r.items@) == items_v(p.items@)
                    &&& r.functions@.len() == p.functions@.len()
                    &&& forall|k: int| 0 <= k < r.functions@.len() ==> function_v(#[trigger] r.functions@[k]) == function_v(p.functions@[k])
                },
                None => r.items@.len() == 0 && r.functions@.len() == 0,
            },
    {
        match &self.modules[0].ast {
            Some(p) => p.deep_clone(),
            None => Program::empty(),
        }
    }

    /// The root module, the first one added.
    pub fn root_module(&self) -> (r: &Module)
        requires
            self.modules@.len() > 0,
        ensures
            *r == self.modules@[0],
    {
        &self.modules[0]
    }

    /// The root module's id.
    pub fn root_id(&self) -> (r: ModuleId)
        ensures
            r == self.root,
    {
        self.root
    }

    /// The number of modules.
    pub fn len(&self) -> (r: usize)
        ensures
            r == self.modules@.len(),
    {
        self.modules.len()
    }

    /// Whether the graph has no module.
    pub fn is_empty(&self) -> (r: bool)
        ensures
            r == (self.modules@.len() == 0),
    {
        self.modules.len() == 0
    }

    /// All modules, in id order.
    pub fn modules(&self) -> (r: &[Module])
        ensures
            r@ == self.modules@,
    {
        self.modules.as_slice()
    }

    /// The import edges.
    pub fn imports(&self) -> (r: &Vec<(ModuleId, Vec<ModuleId>)>)
        ensures
            *r == self.imports,
    {
        &self.imports
    }

    /// A path as shown to the user, such as `crate::graphics::math`.
    pub fn format_path(&self, path: &ModulePath) -> (r: String)
        ensures
            r@ == shown_path(self.symbol_interner@, path@),
    {
        let segs = path.segments();
        if segs.len() == 0 {
            return "crate".to_string();
        }
        let mut out = "crate::".to_string();
        let ghost start = out@;
        let mut i: usize = 0;
        while i < segs.len()
            invariant
                i <= segs@.len(),
                segs@ == path@,
                segs@.len() > 0,
                start == "crate::"@,
                out@ == start + joined(self.symbol_interner@, segs@.take(i as int)),
            decreases segs@.len() - i,
        {
            let name = match self.symbol_interner.lookup(segs[i]) {
                Some(t) => t,
                None => "<unknown>",
            };
            proof {
                assert(segs@.take(i + 1).drop_last() == segs@.take(i as int));
                assert(segs@.take(i + 1).last() == segs@[i as int]);
            }
            if i > 0 {
                out.append("::");
            }
            out.append(name);
            proof {
                if i == 0 {
                    assert(joined(self.symbol_interner@, segs@.take(0)) == Seq::<char>::empty());
                    assert(out@ == start + segment_name(self.symbol_interner@, segs@[0]));
                    assert(segs@.take(1) =~= seq![segs@[0]]);
                }
            }
            i = i + 1;
        }
        assert(segs@.take(segs@.len() as int) == segs@);
        out
    }

    /// The module at `segments` below module `from`, if indexed.
    pub fn resolve_path(&self, from: ModuleId, segments: &[SymbolId]) -> (r: Option<ModuleId>)
        ensures
            r == (if from.0 < self.modules@.len() {
                indexed(self.index(), self.modules@[from.0 as int].path@ + segments@)
            } else {
                None
            }),
    {
        let base = match self.get_module(from) {
            Some(m) => m,
            None => return None,
        };
        let mut path = base.path.copy();
        let mut i: usize = 0;
        while i < segments.len()
            invariant
                i <= segments@.len(),
                path@ == base.path@ + segments@.take(i as int),
            decreases segments@.len() - i,
        {
            path = path.child(segments[i]);
            assert(segments@.take(i + 1) == segments@.take(i as int).push(segments@[i as int]));
            i = i + 1;
        }
        assert(segments@.take(segments@.len() as int) == segments@);
        self.find_module(&path)
    }
}

/// `p` is a path along import edges: each module imports the next.
pub open spec fn is_import_path(imports: Seq<(ModuleId, Vec<ModuleId>)>, p: Seq<ModuleId>) -> bool {
    &&& p.len() > 0
    &&& forall|i: int| 0 <= i < p.len() - 1 ==> imports_of(imports, #[trigger] p[i]).contains(p[i + 1])
}

/// `c` is an import cycle: a path whose last module imports its first.
pub open spec fn is_import_cycle(imports: Seq<(ModuleId, Vec<ModuleId>)>, c: Seq<ModuleId>) -> bool {
    &&& is_import_path(imports, c)
    &&& imports_of(imports, c.last()).contains(c[0])
}

/// `m` lies on an import path that starts at a module whose id is below
/// `bound`.
pub open spec fn reachable_below(imports: Seq<(ModuleId, Vec<ModuleId>)>, bound: u32, m: ModuleId) -> bool {
    exists|p: Seq<ModuleId>| #[trigger] is_import_path(imports, p) && p[0].0 < bound && p.last() == m
}

/// The names of a program's `mod` items, in order.
pub open spec fn mod_item_names(items: Seq<Item>) -> Seq<Seq<char>>
    decreases items.len(),
{
    if items.len() == 0 {
        Seq::empty()
    } else {
        mod_item_names(items.drop_last()) + match items.last().kind {
            ItemKind::ModDecl => seq![items.last().name@],
            _ => Seq::empty(),
        }
    }
}

/// The modules a source file declares: the `mod` items of its syntax when
/// it parsed, else what the line scan of its text finds.
pub fn extract_mod_declarations_from_ast(ast: Option<&Program>, source: &str) -> (r: Vec<String>)
    ensures
        r@.map_values(|s: String| s@) == match ast {
            Some(p) => mod_item_names(p.items@),
            None => mod_decls_from(source@, 0),
        },
{
    match ast {
        Some(program) => {
            let items = &program.items;
            let mut out: Vec<String> = Vec::new();
            let mut i: usize = 0;
            assert(items@.take(0) =~= Seq::<Item>::empty());
            while i < items.len()
                invariant
                    i <= items@.len(),
                    out@.map_values(|s: String| s@) == mod_item_names(items@.take(i as int)),
                decreases items@.len() - i,
            {
                proof {
                    assert(items@.take(i + 1).drop_last() == items@.take(i as int));
                    assert(items@.take(i + 1).last() == items@[i as int]);
                }
                let ghost before = out@;
                match &items[i].kind {
                    ItemKind::ModDecl => {
                        out.push(items[i].name.clone());
                        proof {
                            assert(out@.map_values(|s: String| s@) =~= before.map_values(|s: String| s@).push(items@[i as int].name@));
                        }
                    },
                    _ => {
                        proof {
                            assert(mod_item_names(items@.take(i + 1)) =~= mod_item_names(items@.take(i as int)));
                        }
                    },
                }
                i = i + 1;
            }
            assert(items@.take(items@.len() as int) == items@);
            out
        },
        None => extract_mod_declarations(source),
    }
}

/// The depth-first search's state while no cycle is found: every visited
/// module is on the stack or finished; the stack is a path; every module a
/// finished module imports finished before it.
pub open spec fn search_ok(
    imports: Seq<(ModuleId, Vec<ModuleId>)>,
    visited: Seq<ModuleId>,
    stack: Seq<ModuleId>,
    done: Seq<ModuleId>,
) -> bool {
    &&& visited.no_duplicates()
    &&& stack.no_duplicates()
    &&& done.no_duplicates()
    &&& forall|x: ModuleId| #[trigger] visited.contains(x) <==> (stack.contains(x) || done.contains(x))
    &&& forall|x: ModuleId| stack.contains(x) ==> !done.contains(x)
    &&& forall|k: int, y: ModuleId|
        0 <= k < done.len() && #[trigger] imports_of(imports, done[k]).contains(y) ==> exists|j: int| 0 <= j < k && done[j] == y
    &&& forall|i: int| 0 <= i < stack.len() - 1 ==> imports_of(imports, #[trigger] stack[i]).contains(stack[i + 1])
}

proof fn lemma_ids_bounded(v: Seq<ModuleId>)
    requires
        v.no_duplicates(),
    ensures
        v.len() <= 0x1_0000_0000,
{
    let w = v.map_values(|m: ModuleId| m.0 as int);
    assert(w.no_duplicates()) by {
        assert forall|i: int, j: int| 0 <= i < w.len() && 0 <= j < w.len() && i != j implies w[i] != w[j] by {
            assert(v[i] != v[j]);
        }
    }
    w.unique_seq_to_set();
    vstd::set_lib::lemma_int_range(0, 0x1_0000_0000);
    assert(w.to_set().subset_of(vstd::set_lib::set_int_range(0, 0x1_0000_0000)));
    vstd::set_lib::lemma_len_subset(w.to_set(), vstd::set_lib::set_int_range(0, 0x1_0000_0000));
}

/// Every module on a path that starts among the finished ones is finished.
proof fn lemma_path_stays_done(imports: Seq<(ModuleId, Vec<ModuleId>)>, done: Seq<ModuleId>, p: Seq<ModuleId>, i: int)
    requires
        forall|k: int, y: ModuleId|
            0 <= k < done.len() && #[trigger] imports_of(imports, done[k]).contains(y) ==> exists|j: int| 0 <= j < k && done[j] == y,
        is_import_path(imports, p),
        done.contains(p[0]),
        0 <= i < p.len(),
    ensures
        done.contains(p[i]),
    decreases i,
{
    if i > 0 {
        lemma_path_stays_done(imports, done, p, i - 1);
        let k = choose|k: int| 0 <= k < done.len() && done[k] == p[i - 1];
        assert(imports_of(imports, p[i - 1]).contains(p[i]));
        assert(imports_of(imports, done[k]).contains(p[i]));
        let j = choose|j: int| 0 <= j < k && done[j] == p[i];
        assert(done[j] == p[i]);
    }
}

/// Along a path of finished modules, each finished strictly before the
/// one importing it.
proof fn lemma_path_finishes_earlier(imports: Seq<(ModuleId, Vec<ModuleId>)>, done: Seq<ModuleId>, c: Seq<ModuleId>, i: int)
    requires
        done.no_duplicates(),
        forall|k: int, y: ModuleId|
            0 <= k < done.len() && #[trigger] imports_of(imports, done[k]).contains(y) ==> exists|j: int| 0 <= j < k && done[j] == y,
        is_import_path(imports, c),
        done.contains(c[0]),
        0 <= i < c.len(),
    ensures
        exists|a: int, b: int| 0 <= a < done.len() && 0 <= b < done.len() && done[a] == c[0] && done[b] == c[i] && b <= a - i,
    decreases i,
{
    if i == 0 {
        let a = choose|a: int| 0 <= a < done.len() && done[a] == c[0];
        assert(done[a] == c[0] && done[a] == c[0] && a <= a - 0);
    } else {
        lemma_path_finishes_earlier(imports, done, c, i - 1);
        let (a, b) = choose|a: int, b: int|
            0 <= a < done.len() && 0 <= b < done.len() && done[a] == c[0] && done[b] == c[i - 1] && b <= a - (i - 1);
        assert(imports_of(imports, c[i - 1]).contains(c[i]));
        assert(imports_of(imports, done[b]).contains(c[i]));
        let j = choose|j: int| 0 <= j < b && done[j] == c[i];
        assert(done[a] == c[0] && done[j] == c[i] && j <= a - i);
    }
}

/// No import cycle starts at a finished module.
proof fn lemma_no_cycle_from_done(imports: Seq<(ModuleId, Vec<ModuleId>)>, done: Seq<ModuleId>, c: Seq<ModuleId>)
    requires
        done.no_duplicates(),
        forall|k: int, y: ModuleId|
            0 <= k < done.len() && #[trigger] imports_of(imports, done[k]).contains(y) ==> exists|j: int| 0 <= j < k && done[j] == y,
        is_import_cycle(imports, c),
    ensures
        !done.contains(c[0]),
{
    if !done.contains(c[0]) {
        return;
    }
    let last = c.len() - 1;
    lemma_path_finishes_earlier(imports, done, c, last);
    let (a, b) = choose|a: int, b: int|
        0 <= a < done.len() && 0 <= b < done.len() && done[a] == c[0] && done[b] == c[last] && b <= a - last;
    assert(imports_of(imports, done[b]).contains(c[0]));
    let j = choose|j: int| 0 <= j < b && done[j] == c[0];
    assert(done[j] == done[a]);
}

proof fn lemma_push_contains(s: Seq<ModuleId>, a: ModuleId, x: ModuleId)
    ensures
        s.push(a).contains(x) <==> (s.contains(x) || x == a),
{
    if s.contains(x) {
        let i = choose|i: int| 0 <= i < s.len() && s[i] == x;
        assert(s.push(a)[i] == x);
    }
    if x == a {
        assert(s.push(a)[s.len() as int] == a);
    }
    if s.push(a).contains(x) && x != a {
        let i = choose|i: int| 0 <= i < s.push(a).len() && s.push(a)[i] == x;
        assert(s[i] == x);
    }
}

/// The first position of `x` in `s`.
pub open spec fn first_index(s: Seq<ModuleId>, x: ModuleId) -> int {
    choose|p: int| 0 <= p < s.len() && s[p] == x && forall|j: int| 0 <= j < p ==> s[j] != x
}

/// A found cycle as a sequence.
pub open spec fn cycle_seq(c: Option<Vec<ModuleId>>) -> Option<Seq<ModuleId>> {
    match c {
        Some(v) => Some(v@),
        None => None,
    }
}

/// The depth-first search from `node`, with the modules `visited` so far
/// and the path `stack` that led to `node`: a module already visited gives
/// back, if it is on the path, the path from it on as a cycle; otherwise
/// the module is visited and the modules it imports are searched in order,
/// the first cycle found ending the search.  The result is the visited
/// modules afterwards and the cycle found, if any.  `fuel` bounds the
/// depth; it is always enough, since each level visits a new module.
pub open spec fn dfs_spec(
    imports: Seq<(ModuleId, Vec<ModuleId>)>,
    fuel: nat,
    node: ModuleId,
    visited: Seq<ModuleId>,
    stack: Seq<ModuleId>,
) -> (Seq<ModuleId>, Option<Seq<ModuleId>>)
    decreases fuel, 0int, 0int,
{
    if fuel == 0 {
        (visited, None)
    } else if visited.contains(node) {
        (visited, if stack.contains(node) {
            Some(stack.subrange(first_index(stack, node), stack.len() as int))
        } else {
            None
        })
    } else {
        children_spec(imports, (fuel - 1) as nat, imports_of(imports, node), 0, visited.push(node), stack.push(node))
    }
}

/// The search of the imports `kids[k..]`, in order, each from the
/// visited modules the ones before it left.
pub open spec fn children_spec(
    imports: Seq<(ModuleId, Vec<ModuleId>)>,
    fuel: nat,
    kids: Seq<ModuleId>,
    k: int,
    visited: Seq<ModuleId>,
    stack: Seq<ModuleId>,
) -> (Seq<ModuleId>, Option<Seq<ModuleId>>)
    decreases fuel, 1int, kids.len() - k,
{
    if k < 0 || k >= kids.len() {
        (visited, None)
    } else {
        let (v2, c) = dfs_spec(imports, fuel, kids[k], visited, stack);
        if c is Some {
            (v2, c)
        } else {
            children_spec(imports, fuel, kids, k + 1, v2, stack)
        }
    }
}

/// The whole search: a depth-first search from each module id below
/// `bound` not yet visited, in increasing order, until one finds a cycle.
pub open spec fn search_spec(imports: Seq<(ModuleId, Vec<ModuleId>)>, bound: u32, id: int, visited: Seq<ModuleId>) -> Option<Seq<ModuleId>>
    decreases bound - id,
{
    if id < 0 || id >= bound {
        None
    } else if visited.contains(ModuleId(id as u32)) {
        search_spec(imports, bound, id + 1, visited)
    } else {
        let (v2, c) = dfs_spec(imports, (0x1_0000_0001 - visited.len()) as nat, ModuleId(id as u32), visited, Seq::empty());
        if c is Some {
            c
        } else {
            search_spec(imports, bound, id + 1, v2)
        }
    }
}

/// The stack from `pos` up is a cycle when its top imports its module at
/// `pos`.
fn cycle_on_stack(imports: &Vec<(ModuleId, Vec<ModuleId>)>, stack: &Vec<ModuleId>, pos: usize) -> (c: Vec<ModuleId>)
    requires
        pos < stack@.len(),
        forall|i: int| 0 <= i < stack@.len() - 1 ==> imports_of(imports@, #[trigger] stack@[i]).contains(stack@[i + 1]),
        imports_of(imports@, stack@.last()).contains(stack@[pos as int]),
        stack@.no_duplicates(),
    ensures
        is_import_cycle(imports@, c@),
        c@.no_duplicates(),
        c@ == stack@.subrange(pos as int, stack@.len() as int),
        c@[0] == stack@[pos as int],
        is_import_path(imports@, stack@.take(pos + 1)),
{
    let mut c: Vec<ModuleId> = Vec::new();
    let mut k = pos;
    while k < stack.len()
        invariant
            pos <= k <= stack@.len(),
            c@ == stack@.subrange(pos as int, k as int),
        decreases stack@.len() - k,
    {
        c.push(stack[k]);
        assert(stack@.subrange(pos as int, k + 1) == stack@.subrange(pos as int, k as int).push(stack@[k as int]));
        k = k + 1;
    }
    proof {
        let st = stack@;
        assert forall|i: int| 0 <= i < c@.len() - 1 implies imports_of(imports@, #[trigger] c@[i]).contains(c@[i + 1]) by {
            assert(c@[i] == st[pos + i]);
            assert(c@[i + 1] == st[pos + i + 1]);
        }
        assert(c@.last() == st.last());
        assert(c@[0] == st[pos as int]);
        assert(c@.no_duplicates()) by {
            assert forall|i: int, j: int| 0 <= i < c@.len() && 0 <= j < c@.len() && i != j implies c@[i] != c@[j] by {
                assert(c@[i] == st[pos + i] && c@[j] == st[pos + j]);
            }
        }
        let p = st.take(pos + 1);
        assert forall|i: int| 0 <= i < p.len() - 1 implies imports_of(imports@, #[trigger] p[i]).contains(p[i + 1]) by {
            assert(p[i] == st[i] && p[i + 1] == st[i + 1]);
        }
    }
    c
}

proof fn lemma_enter(
    imports: Seq<(ModuleId, Vec<ModuleId>)>,
    v0: Seq<ModuleId>,
    s0: Seq<ModuleId>,
    done: Seq<ModuleId>,
    node: ModuleId,
)
    requires
        search_ok(imports, v0, s0, done),
        !v0.contains(node),
        s0.len() > 0 ==> imports_of(imports, s0.last()).contains(node),
    ensures
        search_ok(imports, v0.push(node), s0.push(node), done),
        !done.contains(node),
{
    let v = v0.push(node);
    let st = s0.push(node);
    assert(v.no_duplicates()) by {
        assert forall|i: int, j: int| 0 <= i < v.len() && 0 <= j < v.len() && i != j implies v[i] != v[j] by {
            if i == v0.len() {
                assert(v0.contains(v[j]));
            } else if j == v0.len() {
                assert(v0.contains(v[i]));
            }
        }
    }
    assert(!s0.contains(node));
    assert(st.no_duplicates()) by {
        assert forall|i: int, j: int| 0 <= i < st.len() && 0 <= j < st.len() && i != j implies st[i] != st[j] by {
            if i == s0.len() {
                assert(s0.contains(st[j]));
            } else if j == s0.len() {
                assert(s0.contains(st[i]));
            }
        }
    }
    assert forall|x: ModuleId| #[trigger] v.contains(x) <==> (st.contains(x) || done.contains(x)) by {
        lemma_push_contains(v0, node, x);
        lemma_push_contains(s0, node, x);
    }
    assert forall|x: ModuleId| st.contains(x) implies !done.contains(x) by {
        lemma_push_contains(s0, node, x);
    }
    assert forall|i: int| 0 <= i < st.len() - 1 implies imports_of(imports, #[trigger] st[i]).contains(st[i + 1]) by {
        if i < s0.len() - 1 {
            assert(st[i] == s0[i] && st[i + 1] == s0[i + 1]);
        } else {
            assert(st[i] == s0.last());
        }
    }
}

proof fn lemma_grow(
    before: Seq<ModuleId>,
    d: Seq<ModuleId>,
    done: Seq<ModuleId>,
    deps: Seq<ModuleId>,
    j: int,
)
    requires
        0 <= j < deps.len(),
        done.is_prefix_of(before),
        before.is_prefix_of(d),
        forall|k: int| 0 <= k < j ==> before.contains(#[trigger] deps[k]),
        d.contains(deps[j]),
    ensures
        done.is_prefix_of(d),
        forall|k: int| 0 <= k < j + 1 ==> d.contains(#[trigger] deps[k]),
{
    assert forall|k: int| 0 <= k < j + 1 implies d.contains(#[trigger] deps[k]) by {
        if k < j {
            assert(before.contains(deps[k]));
            let i = choose|i: int| 0 <= i < before.len() && before[i] == deps[k];
            assert(d[i] == deps[k]);
        }
    }
    assert forall|i: int| 0 <= i < done.len() implies done[i] == d[i] by {
        assert(before[i] == done[i]);
    }
}

proof fn lemma_finish(
    imports: Seq<(ModuleId, Vec<ModuleId>)>,
    visited: Seq<ModuleId>,
    s0: Seq<ModuleId>,
    node: ModuleId,
    d: Seq<ModuleId>,
    done: Seq<ModuleId>,
)
    requires
        search_ok(imports, visited, s0.push(node), d),
        !d.contains(node),
        forall|k: int| 0 <= k < imports_of(imports, node).len() ==> d.contains(#[trigger] imports_of(imports, node)[k]),
        done.is_prefix_of(d),
    ensures
        search_ok(imports, visited, s0, d.push(node)),
        done.is_prefix_of(d.push(node)),
        d.push(node).contains(node),
{
    let d2 = d.push(node);
    let st = s0.push(node);
    assert(d2.no_duplicates()) by {
        assert forall|i: int, j: int| 0 <= i < d2.len() && 0 <= j < d2.len() && i != j implies d2[i] != d2[j] by {
            if i == d.len() {
                assert(d.contains(d2[j]));
            } else if j == d.len() {
                assert(d.contains(d2[i]));
            }
        }
    }
    assert(s0.no_duplicates()) by {
        assert forall|i: int, j: int| 0 <= i < s0.len() && 0 <= j < s0.len() && i != j implies s0[i] != s0[j] by {
            assert(st[i] == s0[i] && st[j] == s0[j]);
        }
    }
    assert(!s0.contains(node)) by {
        if s0.contains(node) {
            let i = choose|i: int| 0 <= i < s0.len() && s0[i] == node;
            assert(st[i] == st[s0.len() as int]);
        }
    }
    assert forall|x: ModuleId| #[trigger] visited.contains(x) <==> (s0.contains(x) || d2.contains(x)) by {
        lemma_push_contains(s0, node, x);
        lemma_push_contains(d, node, x);
    }
    assert forall|x: ModuleId| s0.contains(x) implies !d2.contains(x) by {
        lemma_push_contains(s0, node, x);
        lemma_push_contains(d, node, x);
    }
    assert forall|k: int, y: ModuleId|
        0 <= k < d2.len() && #[trigger] imports_of(imports, d2[k]).contains(y) implies exists|j: int| 0 <= j < k && d2[j] == y by {
        if k < d.len() {
            assert(d2[k] == d[k]);
            let j = choose|j: int| 0 <= j < k && d[j] == y;
            assert(d2[j] == y);
        } else {
            let deps = imports_of(imports, node);
            assert(d2[k] == node);
            let m = choose|m: int| 0 <= m < deps.len() && deps[m] == y;
            assert(d.contains(deps[m]));
            let j = choose|j: int| 0 <= j < d.len() && d[j] == y;
            assert(d2[j] == y);
        }
    }
    assert forall|i: int| 0 <= i < s0.len() - 1 implies imports_of(imports, #[trigger] s0[i]).contains(s0[i + 1]) by {
        assert(st[i] == s0[i] && st[i + 1] == s0[i + 1]);
    }
    assert forall|i: int| 0 <= i < done.len() implies done[i] == d2[i] by {
        assert(d[i] == done[i]);
    }
    assert(d2[d.len() as int] == node);
}

fn position_of(v: &Vec<ModuleId>, x: ModuleId) -> (r: Option<usize>)
    ensures
        match r {
            Some(i) => i < v@.len() && v@[i as int] == x && forall|j: int| 0 <= j < i ==> v@[j] != x,
            None => !v@.contains(x),
        },
{
    let mut i: usize = 0;
    while i < v.len()
        invariant
            i <= v@.len(),
            forall|j: int| 0 <= j < i ==> v@[j] != x,
        decreases v@.len() - i,
    {
        if v[i] == x {
            return Some(i);
        }
        i = i + 1;
    }
    None
}

impl ModuleGraph {
    /// The position of the import entry for `m`, if any.
    fn imports_entry(&self, m: ModuleId) -> (r: Option<usize>)
        ensures
            r matches Some(i) ==> i < self.imports@.len() && imports_of(self.imports@, m) == self.imports@[i as int].1@,
            r is None ==> imports_of(self.imports@, m) == Seq::<ModuleId>::empty(),
    {
        let ghost im = self.imports@;
        let mut i: usize = self.imports.len();
        assert(im.take(i as int) == im);
        while i > 0
            invariant
                i <= im.len(),
                im == self.imports@,
                imports_of(im, m) == imports_of(im.take(i as int), m),
            decreases i,
        {
            assert(im.take(i as int).last() == im[i - 1]);
            if self.imports[i - 1].0 == m {
                return Some(i - 1);
            }
            assert(im.take(i as int).drop_last() == im.take(i - 1));
            i = i - 1;
        }
        None
    }

    #[verifier::spinoff_prover]
    #[verifier::rlimit(60)]
    fn dfs(
        &self,
        node: ModuleId,
        visited: &mut Vec<ModuleId>,
        stack: &mut Vec<ModuleId>,
        cycle: &mut Option<Vec<ModuleId>>,
        Ghost(done): Ghost<Seq<ModuleId>>,
        Ghost(fuel): Ghost<nat>,
    ) -> (done2: Ghost<Seq<ModuleId>>)
        requires
            old(visited)@.no_duplicates(),
            *old(cycle) is None ==> fuel + old(visited)@.len() >= 0x1_0000_0001,
            *old(cycle) matches Some(c) ==> is_import_cycle(self.imports@, c@),
            *old(cycle) matches Some(c) ==> c@.no_duplicates()
                && reachable_below(self.imports@, self.modules@.len() as u32, c@[0]),
            *old(cycle) is None ==> search_ok(self.imports@, old(visited)@, old(stack)@, done),
            *old(cycle) is None && old(stack)@.len() == 0 ==> node.0 < (self.modules@.len() as u32),
            *old(cycle) is None && old(stack)@.len() > 0 ==> old(stack)@[0].0 < (self.modules@.len() as u32),
            *old(cycle) is None && old(stack)@.len() > 0 ==> imports_of(self.imports@, old(stack)@.last()).contains(node),
        ensures
            final(stack)@ == old(stack)@,
            final(visited)@.no_duplicates(),
            old(visited)@.len() <= final(visited)@.len(),
            *final(cycle) matches Some(c) ==> is_import_cycle(self.imports@, c@),
            *final(cycle) matches Some(c) ==> c@.no_duplicates()
                && reachable_below(self.imports@, self.modules@.len() as u32, c@[0]),
            *old(cycle) is Some ==> *final(cycle) == *old(cycle),
            *old(cycle) is None ==> (final(visited)@, cycle_seq(*final(cycle)))
                == dfs_spec(self.imports@, fuel, node, old(visited)@, old(stack)@),
            *final(cycle) is None ==> {
                &&& search_ok(self.imports@, final(visited)@, final(stack)@, done2@)
                &&& done.is_prefix_of(done2@)
                &&& done2@.contains(node)
            },
        decreases 0x1_0000_0000 - old(visited)@.len(),
    {
        proof {
            lemma_ids_bounded(visited@);
        }
        if cycle.is_some() {
            return Ghost(done);
        }
        if position_of(visited, node).is_some() {
            match position_of(stack, node) {
                Some(pos) => {
                    let c = cycle_on_stack(&self.imports, stack, pos);
                    proof {
                        let p = stack@.take(pos + 1);
                        assert(p[0] == stack@[0]);
                        assert(p.last() == c@[0]);
                        assert(is_import_path(self.imports@, p) && p[0].0 < (self.modules@.len() as u32) && p.last() == c@[0]);
                        assert(stack@.contains(node)) by {
                            assert(stack@[pos as int] == node);
                        }
                        let q = first_index(stack@, node);
                        assert(0 <= q < stack@.len() && stack@[q] == node && forall|j: int| 0 <= j < q ==> stack@[j] != node);
                        assert(q == pos) by {
                            if q < pos {
                                assert(stack@[q] != node);
                            } else if pos < q {
                                assert(stack@[pos as int] != node);
                            }
                        }
                    }
                    *cycle = Some(c);
                },
                None => {
                    proof {
                        assert(visited@.contains(node));
                        assert(!stack@.contains(node));
                    }
                },
            }
            return Ghost(done);
        }
        let ghost v0 = visited@;
        let ghost s0 = stack@;
        let ghost total = children_spec(self.imports@, (fuel - 1) as nat, imports_of(self.imports@, node), 0,
            v0.push(node), s0.push(node));
        proof {
            assert(!v0.contains(node));
        }
        visited.push(node);
        stack.push(node);
        proof {
            lemma_enter(self.imports@, v0, s0, done, node);
        }
        let ghost mut d = done;
        let mut j: usize = 0;
        let entry = self.imports_entry(node);
        let n = match entry {
            Some(e) => self.imports[e].1.len(),
            None => 0,
        };
        while j < n
            invariant_except_break
                *cycle is None,
                children_spec(self.imports@, (fuel - 1) as nat, imports_of(self.imports@, node), j as int,
                    visited@, stack@) == total,
            invariant
                j <= n,
                entry matches Some(e) ==> e < self.imports@.len() && imports_of(self.imports@, node) == self.imports@[e as int].1@,
                entry is None ==> imports_of(self.imports@, node) == Seq::<ModuleId>::empty(),
                n == imports_of(self.imports@, node).len(),
                stack@ == s0.push(node),
                v0 == old(visited)@,
                visited@.no_duplicates(),
                v0.len() + 1 <= visited@.len(),
                *cycle matches Some(c) ==> is_import_cycle(self.imports@, c@),
                *cycle matches Some(c) ==> c@.no_duplicates()
                    && reachable_below(self.imports@, self.modules@.len() as u32, c@[0]),
                stack@[0].0 < (self.modules@.len() as u32),
                *cycle is None ==> search_ok(self.imports@, visited@, stack@, d),
                *cycle is None ==> done.is_prefix_of(d),
                *cycle is None ==> forall|k: int| 0 <= k < j ==> d.contains(#[trigger] imports_of(self.imports@, node)[k]),
                *cycle is None ==> !d.contains(node),
                *cycle is None ==> fuel - 1 + visited@.len() >= 0x1_0000_0001,
            ensures
                (visited@, cycle_seq(*cycle)) == total,
                *cycle is None ==> forall|k: int| 0 <= k < n ==> d.contains(#[trigger] imports_of(self.imports@, node)[k]),
                *cycle matches Some(c) ==> is_import_cycle(self.imports@, c@),
                *cycle matches Some(c) ==> c@.no_duplicates()
                    && reachable_below(self.imports@, self.modules@.len() as u32, c@[0]),
                *cycle is None ==> search_ok(self.imports@, visited@, stack@, d),
                *cycle is None ==> done.is_prefix_of(d),
                *cycle is None ==> !d.contains(node),
                stack@ == s0.push(node),
                visited@.no_duplicates(),
                v0.len() + 1 <= visited@.len(),
            decreases n - j,
        {
            proof {
                lemma_ids_bounded(visited@);
            }
            let child = match entry {
                Some(e) => self.imports[e].1[j],
                None => node,
            };
            let ghost before = d;
            let ghost vb = visited@;
            proof {
                assert(child == imports_of(self.imports@, node)[j as int]);
            }
            let g = self.dfs(child, visited, stack, cycle, Ghost(d), Ghost((fuel - 1) as nat));
            proof {
                assert(children_spec(self.imports@, (fuel - 1) as nat, imports_of(self.imports@, node), j as int,
                    vb, stack@) == total);
            }
            if cycle.is_some() {
                break;
            }
            proof {
                assert(child == imports_of(self.imports@, node)[j as int]);
                d = g@;
                lemma_grow(before, d, done, imports_of(self.imports@, node), j as int);
                assert(stack@.contains(node)) by {
                    assert(stack@[stack@.len() - 1] == node);
                }
            }
            j = j + 1;
        }
        stack.pop();
        proof {
            assert(stack@ =~= s0);
            if cycle.is_none() {
                lemma_finish(self.imports@, visited@, s0, node, d, done);
                d = d.push(node);
            }
        }
        Ghost(d)
    }

    /// Look for a cycle of imports reachable from the modules, by a
    /// depth-first search from each module in id order.  A cycle found is
    /// given from the first of its modules the search entered.
    pub fn detect_cycle(&self) -> (r: Option<Vec<ModuleId>>)
        ensures
            r matches Some(c) ==> is_import_cycle(self.imports@, c@),
            r matches Some(c) ==> c@.no_duplicates(),
            r matches Some(c) ==> reachable_below(self.imports@, self.modules@.len() as u32, c@[0]),
            r is None ==> forall|p: Seq<ModuleId>, c: Seq<ModuleId>|
                is_import_path(self.imports@, p) && p[0].0 < (self.modules@.len() as u32) && is_import_cycle(self.imports@, c)
                    ==> p.last() != c[0],
            cycle_seq(r) == search_spec(self.imports@, self.modules@.len() as u32, 0, Seq::empty()),
    {
        let mut visited: Vec<ModuleId> = Vec::new();
        let mut stack: Vec<ModuleId> = Vec::new();
        let ghost mut done: Seq<ModuleId> = Seq::empty();
        #[verifier::truncate]
        let bound = self.modules.len() as u32;
        let mut id: u32 = 0;
        proof {
            assert forall|x: ModuleId| #[trigger] visited@.contains(x) <==> (stack@.contains(x) || done.contains(x)) by {
            }
        }
        while id < bound
            invariant
                id <= bound,
                bound == self.modules@.len() as u32,
                stack@.len() == 0,
                search_ok(self.imports@, visited@, stack@, done),
                forall|i: u32| i < id ==> done.contains(ModuleId(i)),
                search_spec(self.imports@, bound, 0, Seq::empty()) == search_spec(self.imports@, bound, id as int, visited@),
            decreases bound - id,
        {
            let mid = ModuleId(id);
            let ghost before = done;
            if position_of(&visited, mid).is_none() {
                let mut cycle: Option<Vec<ModuleId>> = None;
                let ghost v0 = visited@;
                proof {
                    lemma_ids_bounded(visited@);
                }
                proof {
                    assert(stack@ =~= Seq::<ModuleId>::empty());
                    assert(!v0.contains(mid));
                }
                let g = self.dfs(mid, &mut visited, &mut stack, &mut cycle, Ghost(done),
                    Ghost((0x1_0000_0001 - v0.len()) as nat));
                proof {
                    assert(search_spec(self.imports@, bound, id as int, v0) == (if cycle_seq(cycle) is Some {
                        cycle_seq(cycle)
                    } else {
                        search_spec(self.imports@, bound, id + 1, visited@)
                    }));
                }
                if cycle.is_some() {
                    return cycle;
                }
                proof {
                    done = g@;
                }
            } else {
                proof {
                    assert(visited@.contains(mid));
                    assert(!stack@.contains(mid));
                    assert(search_spec(self.imports@, bound, id as int, visited@)
                        == search_spec(self.imports@, bound, id + 1, visited@));
                }
            }
            proof {
                assert(done.contains(mid));
                assert forall|i: u32| i < id + 1 implies done.contains(ModuleId(i)) by {
                    if i < id {
                        assert(before.contains(ModuleId(i)));
                        let k = choose|k: int| 0 <= k < before.len() && before[k] == ModuleId(i);
                        assert(done[k] == ModuleId(i));
                    }
                }
            }
            id = id + 1;
        }
        proof {
            assert forall|p: Seq<ModuleId>, c: Seq<ModuleId>|
                is_import_path(self.imports@, p) && p[0].0 < bound && is_import_cycle(self.imports@, c) implies p.last() != c[0] by {
                assert(done.contains(ModuleId(p[0].0)));
                assert(ModuleId(p[0].0) == p[0]);
                lemma_path_stays_done(self.imports@, done, p, p.len() - 1);
                if p.last() == c[0] {
                    lemma_no_cycle_from_done(self.imports@, done, c);
                }
            }
        }
        None
    }
}

impl Default for ModuleGraph {
    fn default() -> (r: ModuleGraph)
        ensures
            r.modules@.len() == 0,
            r.index().len() == 0,
            r.imports@.len() == 0,
    {
        ModuleGraph::new()
    }
}

} // verus!
