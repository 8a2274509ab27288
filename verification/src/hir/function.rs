//! Lowered struct and enum definitions.
use vstd::prelude::*;
use crate::hir::stmt::HirStmt;
use crate::hir::symbol::{DefEntry, DefId, DefTable, SymbolId, SymbolInterner, Visibility};
use crate::hir::types::{HirType, model_of};
use crate::module::{Module, ModuleId, ModuleScope};

verus! {

/// A source location: `len` bytes at `offset`.
#[derive(Debug, Clone, Copy, PartialEq, Eq, Structural)]
pub struct SourceSpan {
    pub offset: usize,
    pub len: usize,
}

/// A lowered struct definition: name and typed fields.
#[derive(Debug, Clone)]
pub struct StructDef {
    pub def_id: DefId,
    pub name: SymbolId,
    pub generic_params: Vec<SymbolId>,
    pub fields: Vec<(SymbolId, HirType)>,
    pub span: SourceSpan,
    pub module: ModuleId,
    pub visibility: Visibility,
}

/// A lowered enum definition: name and variant names.
#[derive(Debug, Clone)]
pub struct EnumDef {
    pub def_id: DefId,
    pub name: SymbolId,
    pub generic_params: Vec<SymbolId>,
    pub variants: Vec<SymbolId>,
    pub span: SourceSpan,
    pub module: ModuleId,
    pub visibility: Visibility,
}

/// A lowered function.
#[derive(Debug)]
pub struct HirFunction {
    pub def_id: DefId,
    pub name: SymbolId,
    pub generic_params: Vec<SymbolId>,
    pub params: Vec<(SymbolId, HirType)>,
    pub return_type: HirType,
    pub body: Vec<HirStmt>,
    pub span: SourceSpan,
    pub module: ModuleId,
    pub visibility: Visibility,
}

/// A `use` declaration: the path as written and the name it introduces.
#[derive(Debug, Clone)]
pub struct HirUseDecl {
    pub def_id: DefId,
    pub path: Vec<SymbolId>,
    pub alias: SymbolId,
    pub module: ModuleId,
    pub visibility: Visibility,
    pub span: SourceSpan,
}

/// A `mod` declaration and, once discovered, the module it refers to.
#[derive(Debug, Clone)]
pub struct HirModDecl {
    pub def_id: DefId,
    pub name: SymbolId,
    pub module_id: Option<ModuleId>,
    pub module: ModuleId,
    pub visibility: Visibility,
    pub span: SourceSpan,
}

/// A lowered program: its definitions, symbol table, and module data.
/// `module_paths` maps item ids to their modules (first entry wins).
#[derive(Debug)]
pub struct HirProgram {
    pub functions: Vec<HirFunction>,
    pub structs: Vec<StructDef>,
    pub enums: Vec<EnumDef>,
    pub symbols: SymbolInterner,
    /// The program's modules, each at the position of its id.
    pub modules: Vec<Module>,
    pub root_module: ModuleId,
    pub module_paths: Vec<(DefId, ModuleId)>,
    pub def_table: DefTable,
    pub module_scopes: Vec<ModuleScope>,
    pub use_decls: Vec<HirUseDecl>,
    pub mod_decls: Vec<HirModDecl>,
}

/// Whether `i` is the first position of `paths` recording `id`.
pub open spec fn first_path_at(paths: Seq<(DefId, ModuleId)>, id: DefId, i: int) -> bool {
    &&& 0 <= i < paths.len()
    &&& paths[i].0 == id
    &&& forall|j: int| 0 <= j < i ==> paths[j].0 != id
}

/// The module owning `id`: from `module_paths` where it is recorded there,
/// else from the definition table.
pub open spec fn module_of_spec(paths: Seq<(DefId, ModuleId)>, table: Seq<DefEntry>, id: DefId) -> Option<ModuleId> {
    if exists|i: int| first_path_at(paths, id, i) {
        Some(paths[choose|i: int| first_path_at(paths, id, i)].1)
    } else if id.0 < table.len() {
        Some(table[id.0 as int].module)
    } else {
        None
    }
}

impl HirProgram {
    /// The function stored at position `id`.
    pub fn function(&self, id: DefId) -> (r: Option<&HirFunction>)
        ensures
            r is Some <==> id.0 < self.functions@.len(),
            r matches Some(f) ==> *f == self.functions@[id.0 as int],
    {
        if (id.0 as usize) < self.functions.len() {
            Some(&self.functions[id.0 as usize])
        } else {
            None
        }
    }

    /// The interned string of a symbol.
    pub fn symbol_name(&self, id: SymbolId) -> (r: Option<&str>)
        ensures
            r is Some <==> id.0 < self.symbols@.len(),
            r matches Some(t) ==> t@ == self.symbols@[id.0 as int],
    {
        self.symbols.lookup(id)
    }

    /// Whether the symbol `id` names the text `name` in this program's
    /// interner.
    pub open spec fn names(&self, id: SymbolId, name: Seq<char>) -> bool {
        id.0 < self.symbols@.len() && self.symbols@[id.0 as int] == name
    }

    /// The first function whose name is `name`.
    pub fn function_by_name(&self, name: &str) -> (r: Option<&HirFunction>)
        ensures
            r is None <==> forall|i: int| 0 <= i < self.functions@.len() ==> !self.names(self.functions@[i].name, name@),
            r matches Some(f) ==> exists|i: int|
                0 <= i < self.functions@.len() && self.names(self.functions@[i].name, name@)
                && (forall|j: int| 0 <= j < i ==> !self.names(self.functions@[j].name, name@)) && *f == self.functions@[i],
    {
        let mut i: usize = 0;
        while i < self.functions.len()
            invariant
                i <= self.functions@.len(),
                forall|j: int| 0 <= j < i ==> !self.names(self.functions@[j].name, name@),
            decreases self.functions@.len() - i,
        {
            match self.symbols.lookup(self.functions[i].name) {
                Some(t) => {
                    if crate::text::same_text(t, name) {
                        return Some(&self.functions[i]);
                    }
                },
                None => {},
            }
            i = i + 1;
        }
        None
    }

    /// The first struct definition whose name is `name`.
    pub fn struct_by_name(&self, name: &str) -> (r: Option<&StructDef>)
        ensures
            r is None <==> forall|i: int| 0 <= i < self.structs@.len() ==> !self.names(self.structs@[i].name, name@),
            r matches Some(d) ==> exists|i: int|
                0 <= i < self.structs@.len() && self.names(self.structs@[i].name, name@)
                && (forall|j: int| 0 <= j < i ==> !self.names(self.structs@[j].name, name@)) && *d == self.structs@[i],
    {
        let mut i: usize = 0;
        while i < self.structs.len()
            invariant
                i <= self.structs@.len(),
                forall|j: int| 0 <= j < i ==> !self.names(self.structs@[j].name, name@),
            decreases self.structs@.len() - i,
        {
            match self.symbols.lookup(self.structs[i].name) {
                Some(t) => {
                    if crate::text::same_text(t, name) {
                        return Some(&self.structs[i]);
                    }
                },
                None => {},
            }
            i = i + 1;
        }
        None
    }

    /// The first enum definition whose name is `name`.
    pub fn enum_by_name(&self, name: &str) -> (r: Option<&EnumDef>)
        ensures
            r is None <==> forall|i: int| 0 <= i < self.enums@.len() ==> !self.names(self.enums@[i].name, name@),
            r matches Some(d) ==> exists|i: int|
                0 <= i < self.enums@.len() && self.names(self.enums@[i].name, name@)
                && (forall|j: int| 0 <= j < i ==> !self.names(self.enums@[j].name, name@)) && *d == self.enums@[i],
    {
        let mut i: usize = 0;
        while i < self.enums.len()
            invariant
                i <= self.enums@.len(),
                forall|j: int| 0 <= j < i ==> !self.names(self.enums@[j].name, name@),
            decreases self.enums@.len() - i,
        {
            match self.symbols.lookup(self.enums[i].name) {
                Some(t) => {
                    if crate::text::same_text(t, name) {
                        return Some(&self.enums[i]);
                    }
                },
                None => {},
            }
            i = i + 1;
        }
        None
    }

    /// The first struct definition with the given name symbol.
    pub fn struct_def(&self, sym: SymbolId) -> (r: Option<&StructDef>)
        ensures
            r is None <==> forall|i: int| 0 <= i < self.structs@.len() ==> self.structs@[i].name != sym,
            r matches Some(d) ==> exists|i: int|
                0 <= i < self.structs@.len() && self.structs@[i].name == sym
                && (forall|j: int| 0 <= j < i ==> self.structs@[j].name != sym) && *d == self.structs@[i],
    {
        let mut i: usize = 0;
        while i < self.structs.len()
            invariant
                i <= self.structs@.len(),
                forall|j: int| 0 <= j < i ==> self.structs@[j].name != sym,
            decreases self.structs@.len() - i,
        {
            if self.structs[i].name == sym {
                return Some(&self.structs[i]);
            }
            i = i + 1;
        }
        None
    }

    /// The first enum definition with the given name symbol.
    pub fn enum_def(&self, sym: SymbolId) -> (r: Option<&EnumDef>)
        ensures
            r is None <==> forall|i: int| 0 <= i < self.enums@.len() ==> self.enums@[i].name != sym,
            r matches Some(d) ==> exists|i: int|
                0 <= i < self.enums@.len() && self.enums@[i].name == sym
                && (forall|j: int| 0 <= j < i ==> self.enums@[j].name != sym) && *d == self.enums@[i],
    {
        let mut i: usize = 0;
        while i < self.enums.len()
            invariant
                i <= self.enums@.len(),
                forall|j: int| 0 <= j < i ==> self.enums@[j].name != sym,
            decreases self.enums@.len() - i,
        {
            if self.enums[i].name == sym {
                return Some(&self.enums[i]);
            }
            i = i + 1;
        }
        None
    }

    /// The module that owns a definition.
    pub fn module_of(&self, id: DefId) -> (r: Option<ModuleId>)
        ensures
            r == module_of_spec(self.module_paths@, self.def_table@, id),
    {
        let mut i: usize = 0;
        while i < self.module_paths.len()
            invariant
                i <= self.module_paths@.len(),
                forall|j: int| 0 <= j < i ==> self.module_paths@[j].0 != id,
            decreases self.module_paths@.len() - i,
        {
            if self.module_paths[i].0 == id {
                proof {
                    assert(first_path_at(self.module_paths@, id, i as int));
                    let k = choose|k: int| first_path_at(self.module_paths@, id, k);
                    assert(k == i) by {
                        if k > i {
                            assert(self.module_paths@[i as int].0 == id);
                        }
                    }
                }
                return Some(self.module_paths[i].1);
            }
            i = i + 1;
        }
        match self.def_table.lookup(id) {
            Some(e) => Some(e.module),
            None => None,
        }
    }

    /// The definition-table entry of a definition.
    pub fn def_entry(&self, id: DefId) -> (r: Option<&DefEntry>)
        ensures
            r is Some <==> id.0 < self.def_table@.len(),
            r matches Some(e) ==> *e == self.def_table@[id.0 as int],
    {
        self.def_table.lookup(id)
    }

    /// The module with the given id.
    pub fn module(&self, id: ModuleId) -> (r: Option<&Module>)
        ensures
            r is Some <==> id.0 < self.modules@.len(),
            r matches Some(m) ==> *m == self.modules@[id.0 as int],
    {
        if (id.0 as usize) < self.modules.len() {
            Some(&self.modules[id.0 as usize])
        } else {
            None
        }
    }

    /// The scope of a module, by its number.
    pub fn module_scope(&self, id: ModuleId) -> (r: Option<&ModuleScope>)
        ensures
            r is Some <==> id.0 < self.module_scopes@.len(),
            r matches Some(s) ==> *s == self.module_scopes@[id.0 as int],
    {
        if (id.0 as usize) < self.module_scopes.len() {
            Some(&self.module_scopes[id.0 as usize])
        } else {
            None
        }
    }
}

/// `a` is a copy of `b`: equal but for how its types are held.
pub open spec fn same_struct(a: StructDef, b: StructDef) -> bool {
    &&& a.def_id == b.def_id
    &&& a.name == b.name
    &&& a.generic_params@ == b.generic_params@
    &&& a.fields@.len() == b.fields@.len()
    &&& forall|k: int| 0 <= k < b.fields@.len() ==> (#[trigger] a.fields@[k]).0 == b.fields@[k].0 && model_of(a.fields@[k].1)
        == model_of(b.fields@[k].1)
    &&& a.span == b.span
    &&& a.module == b.module
    &&& a.visibility == b.visibility
}

/// `a` is a copy of `b`.
pub open spec fn same_enum(a: EnumDef, b: EnumDef) -> bool {
    &&& a.def_id == b.def_id
    &&& a.name == b.name
    &&& a.generic_params@ == b.generic_params@
    &&& a.variants@ == b.variants@
    &&& a.span == b.span
    &&& a.module == b.module
    &&& a.visibility == b.visibility
}

pub(crate) fn copy_ids(v: &Vec<SymbolId>) -> (r: Vec<SymbolId>)
    ensures
        r@ == v@,
{
    let mut out: Vec<SymbolId> = Vec::new();
    let mut i: usize = 0;
    while i < v.len()
        invariant
            i <= v@.len(),
            out@ == v@.take(i as int),
        decreases v@.len() - i,
    {
        out.push(v[i]);
        assert(v@.take(i + 1) == v@.take(i as int).push(v@[i as int]));
        i = i + 1;
    }
    assert(v@.take(v@.len() as int) == v@);
    out
}

pub(crate) fn copy_typed(v: &Vec<(SymbolId, HirType)>) -> (r: Vec<(SymbolId, HirType)>)
    ensures
        r@.len() == v@.len(),
        forall|k: int| 0 <= k < v@.len() ==> (#[trigger] r@[k]).0 == v@[k].0 && model_of(r@[k].1) == model_of(v@[k].1),
{
    let mut out: Vec<(SymbolId, HirType)> = Vec::new();
    let mut i: usize = 0;
    while i < v.len()
        invariant
            i <= v@.len(),
            out@.len() == i,
            forall|k: int| 0 <= k < i ==> (#[trigger] out@[k]).0 == v@[k].0 && model_of(out@[k].1) == model_of(v@[k].1),
        decreases v@.len() - i,
    {
        out.push((v[i].0, v[i].1.clone()));
        i = i + 1;
    }
    out
}

/// A copy of a struct definition.
pub fn copy_struct_def(d: &StructDef) -> (r: StructDef)
    ensures
        same_struct(r, *d),
{
    StructDef {
        def_id: d.def_id,
        name: d.name,
        generic_params: copy_ids(&d.generic_params),
        fields: copy_typed(&d.fields),
        span: d.span,
        module: d.module,
        visibility: d.visibility,
    }
}

/// A copy of an enum definition.
pub fn copy_enum_def(d: &EnumDef) -> (r: EnumDef)
    ensures
        same_enum(r, *d),
{
    EnumDef {
        def_id: d.def_id,
        name: d.name,
        generic_params: copy_ids(&d.generic_params),
        variants: copy_ids(&d.variants),
        span: d.span,
        module: d.module,
        visibility: d.visibility,
    }
}

} // verus!
