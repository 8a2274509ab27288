//! Pieces of the AST to HIR lowering: visibility and type conversion, the
//! ABI-safety rule for external declarations, lexical scopes, and the
//! allocation of fresh definition ids.
use vstd::prelude::*;
use crate::ast::{Type, Visibility, type_keyword};
use crate::hir::symbol::{DefId, SymbolId, SymbolInterner, Visibility as HirVisibility, spec_intern,
    law_intern_lookup};
use crate::hir::function::SourceSpan;
use crate::hir::types::{HirType, Ty, model_of, ty_keyword};
use crate::text::{push_char, push_decimal, decimal};

verus! {

/// Whether a type may cross an external (foreign-function) boundary: only
/// `i64`, `f64`, `bool` and unit are allowed.
pub fn is_abi_safe(ty: &HirType) -> (r: bool)
    ensures
        r <==> (*ty is I64 || *ty is F64 || *ty is Bool || *ty is Unit),
{
    matches!(ty, HirType::I64 | HirType::F64 | HirType::Bool | HirType::Unit)
}

/// The source span of a byte range: its start, and its length (zero for a
/// range whose end lies before its start).
pub fn range_to_span(range: &std::ops::Range<usize>) -> (r: SourceSpan)
    ensures
        r.offset == range.start,
        r.len == (if range.end >= range.start { range.end - range.start } else { 0 }),
{
    let len = if range.end >= range.start {
        range.end - range.start
    } else {
        0
    };
    SourceSpan { offset: range.start, len }
}

/// The HIR visibility of an AST visibility.
pub fn ast_visibility_to_hir(vis: &Visibility) -> (r: HirVisibility)
    ensures
        *vis == Visibility::Private ==> r == HirVisibility::Private,
        *vis == Visibility::Public ==> r == HirVisibility::Public,
{
    match vis {
        Visibility::Private => HirVisibility::Private,
        Visibility::Public => HirVisibility::Public,
    }
}

/// What lowering knows of a variable: its type and whether it is mutable.
#[derive(Debug, Clone)]
pub struct VarInfo {
    pub ty: HirType,
    pub mutable: bool,
}

/// A lexical scope: the variables defined in it, and the enclosing scope.
pub struct LowerScope {
    variables: Vec<(SymbolId, VarInfo)>,
    parent: Option<Box<LowerScope>>,
}

/// The latest binding of `sym` among `vars`, as (type model, mutability).
pub open spec fn latest_binding(vars: Seq<(SymbolId, VarInfo)>, sym: SymbolId) -> Option<(Ty, bool)>
    decreases vars.len(),
{
    if vars.len() == 0 {
        None
    } else if vars.last().0 == sym {
        Some((model_of(vars.last().1.ty), vars.last().1.mutable))
    } else {
        latest_binding(vars.drop_last(), sym)
    }
}

proof fn lemma_latest_binding_same(a: Seq<(SymbolId, VarInfo)>, b: Seq<(SymbolId, VarInfo)>, sym: SymbolId)
    requires
        a.len() == b.len(),
        forall|k: int| 0 <= k < a.len() ==> (#[trigger] a[k]).0 == b[k].0
            && model_of(a[k].1.ty) == model_of(b[k].1.ty)
            && a[k].1.mutable == b[k].1.mutable,
    ensures
        latest_binding(a, sym) == latest_binding(b, sym),
    decreases a.len(),
{
    if a.len() > 0 {
        assert(a.last() == a[a.len() - 1]);
        lemma_latest_binding_same(a.drop_last(), b.drop_last(), sym);
    }
}

impl Clone for LowerScope {
    fn clone(&self) -> (r: LowerScope)
        ensures
            forall|sym: SymbolId| #[trigger] r.resolves(sym) == self.resolves(sym),
    {
        self.deep_clone()
    }
}

impl LowerScope {
    /// Lookup of `sym` from this scope outwards: the innermost scope that
    /// binds it wins, and within a scope the latest binding wins.
    pub closed spec fn resolves(self, sym: SymbolId) -> Option<(Ty, bool)>
        decreases self,
    {
        match latest_binding(self.variables@, sym) {
            Some(b) => Some(b),
            None => match self.parent {
                Some(p) => (*p).resolves(sym),
                None => None,
            },
        }
    }

    /// An outermost scope with no variables.
    pub fn new() -> (r: LowerScope)
        ensures
            forall|sym: SymbolId| r.resolves(sym) is None,
    {
        LowerScope { variables: Vec::new(), parent: None }
    }

    /// An empty scope nested in `parent`.
    pub fn with_parent(parent: LowerScope) -> (r: LowerScope)
        ensures
            forall|sym: SymbolId| #[trigger] r.resolves(sym) == parent.resolves(sym),
    {
        LowerScope { variables: Vec::new(), parent: Some(Box::new(parent)) }
    }

    /// Define (or redefine) a variable in this scope.
    pub fn define_variable(&mut self, sym: SymbolId, ty: HirType, mutable: bool)
        ensures
            final(self).resolves(sym) == Some((model_of(ty), mutable)),
            forall|other: SymbolId| other != sym ==> #[trigger] final(self).resolves(other) == old(self).resolves(other),
    {
        let ghost m = model_of(ty);
        self.variables.push((sym, VarInfo { ty, mutable }));
        proof {
            assert(self.variables@.drop_last() == old(self).variables@);
            assert forall|other: SymbolId| other != sym implies #[trigger] self.resolves(other) == old(self).resolves(other) by {
                assert(latest_binding(self.variables@, other) == latest_binding(old(self).variables@, other));
            }
        }
    }

    /// A copy of this scope chain that resolves every name as this one does.
    pub fn deep_clone(&self) -> (r: LowerScope)
        ensures
            forall|sym: SymbolId| #[trigger] r.resolves(sym) == self.resolves(sym),
        decreases *self,
    {
        let n = self.variables.len();
        let mut vars: Vec<(SymbolId, VarInfo)> = Vec::new();
        let mut i: usize = 0;
        while i < n
            invariant
                i <= n,
                n == self.variables@.len(),
                vars@.len() == i,
                forall|k: int| 0 <= k < i ==> (#[trigger] vars@[k]).0 == self.variables@[k].0
                    && model_of(vars@[k].1.ty) == model_of(self.variables@[k].1.ty)
                    && vars@[k].1.mutable == self.variables@[k].1.mutable,
            decreases n - i,
        {
            let v = &self.variables[i].1;
            vars.push((self.variables[i].0, VarInfo { ty: v.ty.clone(), mutable: v.mutable }));
            i = i + 1;
        }
        let parent: Option<Box<LowerScope>> = match &self.parent {
            Some(p) => {
                assert(decreases_to!(*self => self.parent));
                let c = (**p).deep_clone();
                Some(Box::new(c))
            },
            None => None,
        };
        assert(parent is Some <==> self.parent is Some);
        assert(forall|sym: SymbolId| parent is Some ==> #[trigger] (*parent.unwrap()).resolves(sym) == (*self.parent.unwrap()).resolves(sym));
        let r = LowerScope { variables: vars, parent };
        assert forall|sym: SymbolId| #[trigger] r.resolves(sym) == self.resolves(sym) by {
            lemma_latest_binding_same(r.variables@, self.variables@, sym);
            if parent is Some {
                assert((*parent.unwrap()).resolves(sym) == (*self.parent.unwrap()).resolves(sym));
            }
        }
        r
    }

    /// Look a variable up, from this scope outwards.
    pub fn lookup_variable(&self, sym: &SymbolId) -> (r: Option<VarInfo>)
        ensures
            r is Some <==> self.resolves(*sym) is Some,
            r matches Some(v) ==> self.resolves(*sym) == Some((model_of(v.ty), v.mutable)),
        decreases *self,
    {
        let n = self.variables.len();
        let mut i = n;
        assert(self.variables@.take(n as int) == self.variables@);
        while i > 0
            invariant
                i <= n,
                n == self.variables@.len(),
                latest_binding(self.variables@, *sym) == latest_binding(self.variables@.take(i as int), *sym),
            decreases i,
        {
            assert(self.variables@.take(i as int).drop_last() == self.variables@.take(i - 1));
            if self.variables[i - 1].0 == *sym {
                let v = &self.variables[i - 1].1;
                return Some(VarInfo { ty: v.ty.clone(), mutable: v.mutable });
            }
            i = i - 1;
        }
        assert(latest_binding(self.variables@.take(0), *sym) is None);
        match &self.parent {
            Some(p) => {
                assert(decreases_to!(*self => self.parent));
                (**p).lookup_variable(sym)
            },
            None => None,
        }
    }
}

/// How many names converting `ty` may intern.
pub open spec fn type_depth(ty: Type) -> nat
    decreases ty,
{
    match ty {
        Type::List(inner) => 1 + type_depth(*inner),
        _ => 1,
    }
}

/// The conversion of a source type, interning names into `table`: the new
/// table and the type.  A named type is a generic parameter if it is one
/// of `generics`, else an enum if it is one of `enums`, else a struct.
pub open spec fn spec_ast_type(ty: Type, table: Seq<Seq<char>>, enums: Seq<Seq<char>>, generics: Option<Seq<SymbolId>>) -> (
    Seq<Seq<char>>,
    Ty,
)
    decreases ty,
{
    match ty {
        Type::I64 => (table, Ty::I64),
        Type::F64 => (table, Ty::F64),
        Type::Bool => (table, Ty::Bool),
        Type::Str => (table, Ty::Str),
        Type::Unit => (table, Ty::Unit),
        Type::Struct(name) => {
            let (t2, i) = spec_intern(table, name@);
            let sym = SymbolId(i as u32);
            if generics matches Some(g) && g.contains(sym) {
                (t2, Ty::Generic(sym))
            } else if enums.contains(name@) {
                (t2, Ty::Enum(sym))
            } else {
                (t2, Ty::Struct(sym))
            }
        },
        Type::Enum(name) => {
            let (t2, i) = spec_intern(table, name@);
            (t2, Ty::Enum(SymbolId(i as u32)))
        },
        Type::List(inner) => {
            let (t2, e) = spec_ast_type(*inner, table, enums, generics);
            (t2, Ty::List(Box::new(e)))
        },
    }
}

/// A primitive source type converts to the primitive type of the same
/// name, interning nothing.
pub proof fn law_primitive_type_kept(ty: Type, table: Seq<Seq<char>>, enums: Seq<Seq<char>>, generics: Option<Seq<SymbolId>>)
    ensures
        type_keyword(ty).len() > 0 ==> ty_keyword(spec_ast_type(ty, table, enums, generics).1) == type_keyword(ty)
            && spec_ast_type(ty, table, enums, generics).0 == table,
{
}

fn contains_symbol(v: &[SymbolId], s: SymbolId) -> (r: bool)
    ensures
        r == v@.contains(s),
{
    let mut i: usize = 0;
    while i < v.len()
        invariant
            i <= v@.len(),
            forall|k: int| 0 <= k < i ==> v@[k] != s,
        decreases v@.len() - i,
    {
        if v[i] == s {
            assert(v@[i as int] == s);
            return true;
        }
        i = i + 1;
    }
    false
}

fn contains_name(v: &[String], s: &String) -> (r: bool)
    ensures
        r == v@.map_values(|x: String| x@).contains(s@),
{
    let ghost names = v@.map_values(|x: String| x@);
    let mut i: usize = 0;
    while i < v.len()
        invariant
            i <= v@.len(),
            names == v@.map_values(|x: String| x@),
            forall|k: int| 0 <= k < i ==> names[k] != s@,
        decreases v@.len() - i,
    {
        if v[i] == *s {
            assert(names[i as int] == s@);
            return true;
        }
        i = i + 1;
    }
    false
}

/// Convert a source type to a HIR type, interning the names it mentions.
pub fn ast_type_to_hir(
    ty: &Type,
    symbols: &mut SymbolInterner,
    enum_names: &[String],
    generic_param_names: Option<&[SymbolId]>,
) -> (r: HirType)
    requires
        old(symbols)@.len() + type_depth(*ty) <= u32::MAX,
    ensures
        final(symbols).wf(),
        final(symbols)@.len() <= old(symbols)@.len() + type_depth(*ty),
        ({
            let g = match generic_param_names {
                Some(g) => Some(g@),
                None => None,
            };
            (final(symbols)@, model_of(r)) == spec_ast_type(*ty, old(symbols)@, enum_names@.map_values(|x: String| x@), g)
        }),
    decreases *ty,
{
    proof {
        use_type_invariant(&*symbols);
    }
    match ty {
        Type::I64 => HirType::I64,
        Type::F64 => HirType::F64,
        Type::Bool => HirType::Bool,
        Type::Str => HirType::Str,
        Type::Unit => HirType::Unit,
        Type::Struct(name) => {
            proof {
                law_intern_lookup(symbols@, name@);
            }
            let sym = symbols.intern(name.as_str());
            if let Some(gparams) = generic_param_names {
                if contains_symbol(gparams, sym) {
                    return HirType::Generic(sym);
                }
            }
            if contains_name(enum_names, name) {
                HirType::Enum(sym)
            } else {
                HirType::Struct(sym)
            }
        },
        Type::Enum(name) => {
            proof {
                law_intern_lookup(symbols@, name@);
            }
            let sym = symbols.intern(name.as_str());
            HirType::Enum(sym)
        },
        Type::List(inner) => {
            let e = ast_type_to_hir(inner, symbols, enum_names, generic_param_names);
            HirType::List(Box::new(e))
        },
    }
}

/// The name interned for the `n`-th synthetic definition: `__def_n`.
pub open spec fn def_name(n: nat) -> Seq<char> {
    seq!['_', '_', 'd', 'e', 'f', '_'] + decimal(n)
}

/// The HIR lowering driver; it owns the symbol table.
pub struct HirLower {
    pub symbols: SymbolInterner,
}

impl HirLower {
    /// A lowering driver with an empty symbol table.
    pub fn new() -> (r: HirLower)
        ensures
            r.symbols@ == Seq::<Seq<char>>::empty(),
            r.symbols.wf(),
    {
        HirLower { symbols: SymbolInterner::default() }
    }

    /// A fresh id for a `use` or `mod` declaration: the id of the symbol
    /// `__def_N`, where `N` is the id the next new symbol would get.
    pub fn next_def_id(&mut self) -> (r: DefId)
        requires
            old(self).symbols@.len() < u32::MAX,
        ensures
            final(self).symbols.wf(),
            (final(self).symbols@, r.0 as int) == spec_intern(old(self).symbols@, def_name(old(self).symbols@.len())),
    {
        proof {
            use_type_invariant(&self.symbols);
        }
        let next = self.symbols.next_id().0;
        let mut name = String::new();
        push_char(&mut name, '_');
        push_char(&mut name, '_');
        push_char(&mut name, 'd');
        push_char(&mut name, 'e');
        push_char(&mut name, 'f');
        push_char(&mut name, '_');
        push_decimal(&mut name, next);
        assert(name@ == def_name(next as nat));
        let sym = self.symbols.intern(name.as_str());
        DefId(sym.0)
    }
}

impl Default for HirLower {
    fn default() -> (r: HirLower)
        ensures
            r.symbols@ == Seq::<Seq<char>>::empty(),
            r.symbols.wf(),
    {
        HirLower::new()
    }
}

} // verus!
