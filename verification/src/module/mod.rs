//! Module identities, module paths, per-module scopes, and the text scanner
//! that finds `mod` declarations in source files.
use vstd::prelude::*;
use crate::hir::symbol::{DefId, SymbolId, SymbolInterner, spec_intern, distinct_strings,
    law_intern_lookup};
use crate::text::{push_char, push_decimal, decimal, str_chars, string_from_chars,
    is_unicode_whitespace, is_ident_start, is_ident_continue, char_is_whitespace,
    char_is_ident_start, char_is_ident_continue};

pub mod graph;
pub mod discover;
pub use graph::{Module, ModuleGraph};

use std::cmp::Ordering;
use vstd::std_specs::cmp::PartialOrdSpecImpl;

verus! {

// ---------------------------------------------------------------------------
// ModuleId
// ---------------------------------------------------------------------------

/// Stable module identifier, separate from [`DefId`].  Modules are numbered
/// in discovery order, starting at 0 for the root module.
#[derive(Debug, Clone, Copy, PartialEq, Eq, Hash, Ord, Structural)]
pub struct ModuleId(pub u32);

/// Module ids are ordered by their numbers.
pub open spec fn module_id_order(a: ModuleId, b: ModuleId) -> Ordering {
    if a.0 < b.0 {
        Ordering::Less
    } else if a.0 > b.0 {
        Ordering::Greater
    } else {
        Ordering::Equal
    }
}

impl PartialOrd for ModuleId {
    fn partial_cmp(&self, other: &ModuleId) -> (r: Option<Ordering>) {
        if self.0 < other.0 {
            Some(Ordering::Less)
        } else if self.0 > other.0 {
            Some(Ordering::Greater)
        } else {
            Some(Ordering::Equal)
        }
    }
}

impl PartialOrdSpecImpl for ModuleId {
    open spec fn obeys_partial_cmp_spec() -> bool {
        true
    }

    open spec fn partial_cmp_spec(&self, other: &ModuleId) -> Option<Ordering> {
        Some(module_id_order(*self, *other))
    }
}

impl ModuleId {
    /// The root module identifier (the crate root).
    pub fn root() -> (r: ModuleId)
        ensures
            r.0 == 0,
    {
        ModuleId(0)
    }

    /// Create a `ModuleId` from a raw `u32`.
    pub fn new(id: u32) -> (r: ModuleId)
        ensures
            r.0 == id,
    {
        ModuleId(id)
    }
}

impl From<u32> for ModuleId {
    fn from(id: u32) -> (r: ModuleId) {
        ModuleId(id)
    }
}

impl vstd::std_specs::convert::FromSpecImpl<u32> for ModuleId {
    open spec fn obeys_from_spec() -> bool {
        true
    }

    open spec fn from_spec(id: u32) -> ModuleId {
        ModuleId(id)
    }
}

impl From<ModuleId> for u32 {
    fn from(id: ModuleId) -> (r: u32) {
        id.0
    }
}

impl vstd::std_specs::convert::FromSpecImpl<ModuleId> for u32 {
    open spec fn obeys_from_spec() -> bool {
        true
    }

    open spec fn from_spec(id: ModuleId) -> u32 {
        id.0
    }
}

// ---------------------------------------------------------------------------
// ModulePath
// ---------------------------------------------------------------------------

/// A module path: a sequence of interned segment names.  The root module
/// has the empty path.
#[derive(Debug, Clone, PartialEq, Eq, Hash)]
pub struct ModulePath {
    segments: Vec<SymbolId>,
}

impl View for ModulePath {
    type V = Seq<SymbolId>;

    closed spec fn view(&self) -> Seq<SymbolId> {
        self.segments@
    }
}

/// Interning each string of `segs` in turn: the final table and the ids.
pub open spec fn intern_all(table: Seq<Seq<char>>, segs: Seq<Seq<char>>) -> (
    Seq<Seq<char>>,
    Seq<SymbolId>,
)
    decreases segs.len(),
{
    if segs.len() == 0 {
        (table, Seq::empty())
    } else {
        let (t, ids) = intern_all(table, segs.drop_last());
        let (t2, i) = spec_intern(t, segs.last());
        (t2, ids.push(SymbolId(i as u32)))
    }
}

/// The characters `crate`.
pub open spec fn crate_chars() -> Seq<char> {
    seq!['c', 'r', 'a', 't', 'e']
}

/// The path separator `::`.
pub open spec fn sep_chars() -> Seq<char> {
    seq![':', ':']
}

/// The segments' raw numbers in decimal, joined by `::`.
pub open spec fn joined_ids(s: Seq<SymbolId>) -> Seq<char>
    decreases s.len(),
{
    if s.len() == 0 {
        Seq::empty()
    } else if s.len() == 1 {
        decimal(s[0].0 as nat)
    } else {
        joined_ids(s.drop_last()) + sep_chars() + decimal(s.last().0 as nat)
    }
}

/// How a path prints without an interner: `crate`, or `crate::` followed by
/// the raw segment numbers joined by `::`.
pub open spec fn display_path(s: Seq<SymbolId>) -> Seq<char> {
    if s.len() == 0 {
        crate_chars()
    } else {
        crate_chars() + sep_chars() + joined_ids(s)
    }
}

fn push_crate(s: &mut String)
    ensures
        final(s)@ == old(s)@ + crate_chars(),
{
    push_char(s, 'c');
    push_char(s, 'r');
    push_char(s, 'a');
    push_char(s, 't');
    push_char(s, 'e');
    assert(old(s)@.push('c').push('r').push('a').push('t').push('e') == old(s)@ + crate_chars());
}

fn push_sep(s: &mut String)
    ensures
        final(s)@ == old(s)@ + sep_chars(),
{
    push_char(s, ':');
    push_char(s, ':');
    assert(old(s)@.push(':').push(':') == old(s)@ + sep_chars());
}

fn copy_ids(v: &Vec<SymbolId>, n: usize) -> (r: Vec<SymbolId>)
    requires
        n <= v@.len(),
    ensures
        r@ == v@.take(n as int),
{
    let mut out: Vec<SymbolId> = Vec::new();
    let mut i: usize = 0;
    while i < n
        invariant
            i <= n,
            n <= v@.len(),
            out@ == v@.take(i as int),
        decreases n - i,
    {
        out.push(v[i]);
        assert(v@.take(i + 1) == v@.take(i as int).push(v@[i as int]));
        i = i + 1;
    }
    out
}

impl ModulePath {
    /// The empty (root) module path.
    pub fn new() -> (r: ModulePath)
        ensures
            r@ == Seq::<SymbolId>::empty(),
    {
        ModulePath { segments: Vec::new() }
    }

    /// A module path with the given segments.
    pub fn from_segments(segments: Vec<SymbolId>) -> (r: ModulePath)
        ensures
            r@ == segments@,
    {
        ModulePath { segments }
    }

    /// A module path from string segments, interning each one in turn.
    pub fn from_strings(interner: &mut SymbolInterner, segments: &[&str]) -> (r: ModulePath)
        requires
            old(interner)@.len() + segments@.len() <= u32::MAX,
        ensures
            final(interner).wf(),
            (final(interner)@, r@) == intern_all(
                old(interner)@,
                segments@.map_values(|s: &str| s@),
            ),
            r@.len() == segments@.len(),
            forall|k: int|
                0 <= k < segments@.len() ==> #[trigger] final(interner)@[r@[k].0 as int]
                    == segments@[k]@,
    {
        proof {
            use_type_invariant(&*interner);
        }
        let ghost strs = segments@.map_values(|s: &str| s@);
        let mut segs: Vec<SymbolId> = Vec::new();
        let mut i: usize = 0;
        while i < segments.len()
            invariant
                i <= segments@.len(),
                strs == segments@.map_values(|s: &str| s@),
                interner.wf(),
                interner@.len() <= old(interner)@.len() + i,
                old(interner)@.len() + segments@.len() <= u32::MAX,
                (interner@, segs@) == intern_all(old(interner)@, strs.take(i as int)),
                segs@.len() == i,
                forall|k: int|
                    #![trigger segs@[k]]
                    0 <= k < i ==> segs@[k].0 < interner@.len() && interner@[segs@[k].0 as int]
                        == segments@[k]@,
            decreases segments@.len() - i,
        {
            let ghost before = interner@;
            let ghost old_segs = segs@;
            proof {
                law_intern_lookup(before, segments@[i as int]@);
            }
            let id = interner.intern(segments[i]);
            segs.push(id);
            proof {
                assert(strs.take(i + 1).drop_last() == strs.take(i as int));
                assert(strs.take(i + 1).last() == segments@[i as int]@);
                assert(segs@.drop_last() == old_segs);
                assert forall|k: int| #![trigger segs@[k]] 0 <= k < i + 1 implies segs@[k].0 < interner@.len()
                    && interner@[segs@[k].0 as int] == segments@[k]@ by {
                    if k < i {
                        assert(segs@[k] == old_segs[k]);
                        assert(old_segs[k] == old_segs[k]);
                        assert(old_segs[k].0 < before.len());
                        assert(interner@.take(before.len() as int)[old_segs[k].0 as int]
                            == before[old_segs[k].0 as int]);
                    }
                }
            }
            i = i + 1;
        }
        assert(strs.take(segments@.len() as int) == strs);
        ModulePath { segments: segs }
    }

    /// The interned name of the last segment; `None` for the root path.
    pub fn name<'a>(&self, interner: &'a SymbolInterner) -> (r: Option<&'a str>)
        ensures
            r is Some <==> self@.len() > 0 && self@.last().0 < interner@.len(),
            r matches Some(t) ==> t@ == interner@[self@.last().0 as int],
    {
        let n = self.segments.len();
        if n == 0 {
            None
        } else {
            interner.lookup(self.segments[n - 1])
        }
    }

    /// The path segments.
    pub fn segments(&self) -> (r: &[SymbolId])
        ensures
            r@ == self@,
    {
        self.segments.as_slice()
    }

    /// The number of segments.
    pub fn len(&self) -> (r: usize)
        ensures
            r == self@.len(),
    {
        self.segments.len()
    }

    /// Whether this is the root path.
    pub fn is_empty(&self) -> (r: bool)
        ensures
            r <==> self@.len() == 0,
    {
        self.segments.len() == 0
    }

    /// The parent path (all segments but the last); `None` for the root.
    pub fn parent(&self) -> (r: Option<ModulePath>)
        ensures
            r is None <==> self@.len() == 0,
            r matches Some(p) ==> p@ == self@.drop_last(),
    {
        let n = self.segments.len();
        if n == 0 {
            None
        } else {
            Some(ModulePath { segments: copy_ids(&self.segments, n - 1) })
        }
    }

    /// Whether `self` equals `ancestor` or lies below it.
    pub fn is_descendant_of(&self, ancestor: &ModulePath) -> (r: bool)
        ensures
            r <==> ancestor@.is_prefix_of(self@),
    {
        let m = ancestor.segments.len();
        if m > self.segments.len() {
            return false;
        }
        let mut i: usize = 0;
        while i < m
            invariant
                i <= m,
                m == ancestor@.len(),
                m <= self@.len(),
                forall|k: int| 0 <= k < i ==> ancestor@[k] == self@[k],
            decreases m - i,
        {
            if ancestor.segments[i] != self.segments[i] {
                return false;
            }
            i = i + 1;
        }
        true
    }

    /// The path one level below `self`, named `segment`.
    pub fn child(&self, segment: SymbolId) -> (r: ModulePath)
        ensures
            r@ == self@.push(segment),
    {
        let mut segs = copy_ids(&self.segments, self.segments.len());
        assert(self@.take(self@.len() as int) == self@);
        segs.push(segment);
        ModulePath { segments: segs }
    }

    /// A copy of the path.
    pub fn copy(&self) -> (r: ModulePath)
        ensures
            r@ == self@,
    {
        let segs = copy_ids(&self.segments, self.segments.len());
        assert(self@.take(self@.len() as int) == self@);
        ModulePath { segments: segs }
    }

    /// Whether the two paths have the same segments.
    pub fn same_path(&self, other: &ModulePath) -> (r: bool)
        ensures
            r <==> self@ == other@,
    {
        if self.segments.len() != other.segments.len() {
            return false;
        }
        let r = self.is_descendant_of(other);
        proof {
            if r {
                assert(self@ =~= other@);
            }
        }
        r
    }

    /// The path without an interner: `crate`, or `crate::` followed by
    /// the raw segment numbers joined by `::`.
    pub fn to_string(&self) -> (r: String)
        ensures
            r@ == display_path(self@),
    {
        let mut s = String::new();
        push_crate(&mut s);
        let n = self.segments.len();
        if n == 0 {
            return s;
        }
        push_sep(&mut s);
        let mut i: usize = 0;
        while i < n
            invariant
                i <= n,
                n == self@.len(),
                n > 0,
                s@ == crate_chars() + sep_chars() + joined_ids(self@.take(i as int)),
            decreases n - i,
        {
            let ghost before = s@;
            if i > 0 {
                push_sep(&mut s);
            }
            push_decimal(&mut s, self.segments[i].0);
            proof {
                let t = self@.take(i + 1);
                assert(t.drop_last() == self@.take(i as int));
                assert(t.last() == self@[i as int]);
                if i == 0 {
                    assert(joined_ids(self@.take(0)) == Seq::<char>::empty());
                    assert(before == crate_chars() + sep_chars());
                    assert(joined_ids(t) == decimal(self@[0].0 as nat));
                }
            }
            i = i + 1;
        }
        assert(self@.take(n as int) == self@);
        s
    }
}

/// The order of module paths: shorter paths first; paths of one length
/// by their segment ids, the first difference deciding.
pub open spec fn path_order(a: Seq<SymbolId>, b: Seq<SymbolId>) -> Ordering {
    if a.len() < b.len() {
        Ordering::Less
    } else if a.len() > b.len() {
        Ordering::Greater
    } else {
        segments_order(a, b, 0)
    }
}

/// The order of two segment sequences from position `i` on.
pub open spec fn segments_order(a: Seq<SymbolId>, b: Seq<SymbolId>, i: int) -> Ordering
    decreases a.len() - i,
{
    if i < 0 || i >= a.len() || i >= b.len() {
        Ordering::Equal
    } else if a[i].0 < b[i].0 {
        Ordering::Less
    } else if a[i].0 > b[i].0 {
        Ordering::Greater
    } else {
        segments_order(a, b, i + 1)
    }
}

proof fn lemma_segments_order(a: Seq<SymbolId>, b: Seq<SymbolId>, i: int)
    requires
        a.len() == b.len(),
        0 <= i <= a.len(),
    ensures
        segments_order(a, b, i) == Ordering::Equal <==> a.skip(i) == b.skip(i),
        segments_order(a, b, i) == Ordering::Less <==> segments_order(b, a, i) == Ordering::Greater,
    decreases a.len() - i,
{
    if i < a.len() {
        lemma_segments_order(a, b, i + 1);
        assert(a.skip(i) == seq![a[i]] + a.skip(i + 1));
        assert(b.skip(i) == seq![b[i]] + b.skip(i + 1));
        if a.skip(i) == b.skip(i) {
            assert(a.skip(i)[0] == b.skip(i)[0]);
            assert(a.skip(i + 1) =~= a.skip(i).skip(1));
            assert(b.skip(i + 1) =~= b.skip(i).skip(1));
        }
    } else {
        assert(a.skip(i) =~= b.skip(i));
    }
}

/// Module paths are ordered as `<` promises: two paths compare equal
/// exactly when they are the same path, and `a` comes before `b` exactly
/// when `b` comes after `a`.
pub proof fn law_path_order(a: Seq<SymbolId>, b: Seq<SymbolId>)
    ensures
        path_order(a, b) == Ordering::Equal <==> a == b,
        path_order(a, b) == Ordering::Less <==> path_order(b, a) == Ordering::Greater,
{
    if a.len() == b.len() {
        lemma_segments_order(a, b, 0);
        assert(a.skip(0) =~= a);
        assert(b.skip(0) =~= b);
    }
}

proof fn lemma_segments_order_trans(a: Seq<SymbolId>, b: Seq<SymbolId>, c: Seq<SymbolId>, i: int)
    requires
        a.len() == b.len(),
        b.len() == c.len(),
        0 <= i <= a.len(),
        segments_order(a, b, i) == Ordering::Less,
        segments_order(b, c, i) == Ordering::Less,
    ensures
        segments_order(a, c, i) == Ordering::Less,
    decreases a.len() - i,
{
    if i < a.len() && a[i].0 == b[i].0 && b[i].0 == c[i].0 {
        lemma_segments_order_trans(a, b, c, i + 1);
    }
}

/// The order of module paths is transitive.
pub proof fn law_path_order_transitive(a: Seq<SymbolId>, b: Seq<SymbolId>, c: Seq<SymbolId>)
    requires
        path_order(a, b) == Ordering::Less,
        path_order(b, c) == Ordering::Less,
    ensures
        path_order(a, c) == Ordering::Less,
{
    if a.len() == b.len() && b.len() == c.len() {
        lemma_segments_order_trans(a, b, c, 0);
    }
}

impl PartialOrd for ModulePath {
    fn partial_cmp(&self, other: &ModulePath) -> (r: Option<Ordering>) {
        let n = self.segments.len();
        if n < other.segments.len() {
            return Some(Ordering::Less);
        }
        if n > other.segments.len() {
            return Some(Ordering::Greater);
        }
        let mut i: usize = 0;
        let ghost mut at: int = 0;
        while i < n
            invariant
                n == self@.len(),
                n == other@.len(),
                i <= n,
                at == i,
                segments_order(self@, other@, 0) == segments_order(self@, other@, at),
            decreases n - i,
        {
            let a = self.segments[i].0;
            let b = other.segments[i].0;
            if a < b {
                return Some(Ordering::Less);
            }
            if a > b {
                return Some(Ordering::Greater);
            }
            i = i + 1;
            proof {
                at = at + 1;
            }
        }
        Some(Ordering::Equal)
    }
}

impl PartialOrdSpecImpl for ModulePath {
    open spec fn obeys_partial_cmp_spec() -> bool {
        true
    }

    open spec fn partial_cmp_spec(&self, other: &ModulePath) -> Option<Ordering> {
        Some(path_order(self@, other@))
    }
}

impl Default for ModulePath {
    fn default() -> (r: ModulePath)
        ensures
            r@ == Seq::<SymbolId>::empty(),
    {
        ModulePath::new()
    }
}

/// A child path lies below its parent, and its parent is the path it was
/// built from.
pub proof fn law_child_parent(p: Seq<SymbolId>, seg: SymbolId)
    ensures
        p.push(seg).drop_last() == p,
        p.is_prefix_of(p.push(seg)),
        p.len() < p.push(seg).len(),
{
    assert(p.push(seg).drop_last() == p);
}

/// Descent is reflexive and transitive.
pub proof fn law_descendant_order(a: Seq<SymbolId>, b: Seq<SymbolId>, c: Seq<SymbolId>)
    ensures
        a.is_prefix_of(a),
        a.is_prefix_of(b) && b.is_prefix_of(c) ==> a.is_prefix_of(c),
        a.is_prefix_of(b) && b.is_prefix_of(a) ==> a == b,
{
    if a.is_prefix_of(b) && b.is_prefix_of(a) {
        assert(a =~= b);
    }
}

// ---------------------------------------------------------------------------
// ModuleScope
// ---------------------------------------------------------------------------

/// A name table from interned names to definitions.  A later definition of
/// a name replaces the earlier one.
#[derive(Debug, Clone)]
pub struct NameTable {
    entries: Vec<(SymbolId, DefId)>,
}

pub open spec fn pairs_map(e: Seq<(SymbolId, DefId)>) -> Map<SymbolId, DefId>
    decreases e.len(),
{
    if e.len() == 0 {
        Map::empty()
    } else {
        pairs_map(e.drop_last()).insert(e.last().0, e.last().1)
    }
}

proof fn lemma_pairs_map_hit(e: Seq<(SymbolId, DefId)>, k: SymbolId, i: int)
    requires
        0 <= i < e.len(),
        e[i].0 == k,
        forall|j: int| i < j < e.len() ==> e[j].0 != k,
    ensures
        pairs_map(e).contains_key(k),
        pairs_map(e)[k] == e[i].1,
    decreases e.len(),
{
    if i < e.len() - 1 {
        lemma_pairs_map_hit(e.drop_last(), k, i);
    }
}

proof fn lemma_pairs_map_miss(e: Seq<(SymbolId, DefId)>, k: SymbolId)
    requires
        forall|j: int| 0 <= j < e.len() ==> e[j].0 != k,
    ensures
        !pairs_map(e).contains_key(k),
    decreases e.len(),
{
    if e.len() > 0 {
        lemma_pairs_map_miss(e.drop_last(), k);
    }
}

impl View for NameTable {
    type V = Map<SymbolId, DefId>;

    closed spec fn view(&self) -> Map<SymbolId, DefId> {
        pairs_map(self.entries@)
    }
}

impl NameTable {
    /// An empty table.
    pub fn new() -> (r: NameTable)
        ensures
            r@ == Map::<SymbolId, DefId>::empty(),
    {
        NameTable { entries: Vec::new() }
    }

    /// Bind `name` to `def`, replacing any earlier binding.
    pub fn insert(&mut self, name: SymbolId, def: DefId)
        ensures
            final(self)@ == old(self)@.insert(name, def),
    {
        self.entries.push((name, def));
        assert(self.entries@.drop_last() == old(self).entries@);
    }

    /// The definition bound to `name`, if any.
    pub fn get(&self, name: &SymbolId) -> (r: Option<DefId>)
        ensures
            r is Some <==> self@.contains_key(*name),
            r matches Some(d) ==> d == self@[*name],
    {
        let n = self.entries.len();
        let mut i: usize = n;
        while i > 0
            invariant
                i <= n,
                n == self.entries@.len(),
                forall|j: int| i <= j < n ==> self.entries@[j].0 != *name,
            decreases i,
        {
            i = i - 1;
            if self.entries[i].0 == *name {
                proof {
                    lemma_pairs_map_hit(self.entries@, *name, i as int);
                }
                return Some(self.entries[i].1);
            }
        }
        proof {
            lemma_pairs_map_miss(self.entries@, *name);
        }
        None
    }
}

/// The abstract content of a [`ModuleScope`].
pub struct ScopeModel {
    pub items: Map<SymbolId, DefId>,
    pub imports: Map<SymbolId, DefId>,
    pub parent: Option<ModuleId>,
}

/// Lookup within one scope: items first, then imports.
pub open spec fn scope_find(s: ScopeModel, name: SymbolId) -> Option<DefId> {
    if s.items.contains_key(name) {
        Some(s.items[name])
    } else if s.imports.contains_key(name) {
        Some(s.imports[name])
    } else {
        None
    }
}

/// Lookup along the parent chain starting at `s`, taking at most `fuel`
/// scopes.  `None` means the chain is longer than `fuel`; `Some(r)` is the
/// answer of the lookup.
pub open spec fn chain_find(scopes: Seq<ScopeModel>, s: ScopeModel, name: SymbolId, fuel: nat) -> Option<
    Option<DefId>,
>
    decreases fuel,
{
    if fuel == 0 {
        None
    } else {
        match scope_find(s, name) {
            Some(d) => Some(Some(d)),
            None => match s.parent {
                Some(p) => if (p.0 as int) < scopes.len() {
                    chain_find(scopes, scopes[p.0 as int], name, (fuel - 1) as nat)
                } else {
                    Some(None)
                },
                None => Some(None),
            },
        }
    }
}

proof fn lemma_chain_find_mono(scopes: Seq<ScopeModel>, s: ScopeModel, name: SymbolId, f: nat, g: nat)
    requires
        f <= g,
        chain_find(scopes, s, name, f) is Some,
    ensures
        chain_find(scopes, s, name, g) == chain_find(scopes, s, name, f),
    decreases f,
{
    if scope_find(s, name) is None {
        if let Some(p) = s.parent {
            if (p.0 as int) < scopes.len() {
                lemma_chain_find_mono(scopes, scopes[p.0 as int], name, (f - 1) as nat, (g - 1) as nat);
            }
        }
    }
}

/// Per-module namespace: the module's own items, its imports, and its
/// parent module.
#[derive(Debug, Clone)]
pub struct ModuleScope {
    /// Items declared in this module.
    pub items: NameTable,
    /// Names brought in by `use` declarations.
    pub imports: NameTable,
    /// The parent module; `None` for the root module.
    pub parent: Option<ModuleId>,
}

impl View for ModuleScope {
    type V = ScopeModel;

    open spec fn view(&self) -> ScopeModel {
        ScopeModel { items: self.items@, imports: self.imports@, parent: self.parent }
    }
}

impl ModuleScope {
    /// An empty scope with no parent.
    pub fn new() -> (r: ModuleScope)
        ensures
            r@.items == Map::<SymbolId, DefId>::empty(),
            r@.imports == Map::<SymbolId, DefId>::empty(),
            r@.parent is None,
    {
        ModuleScope { items: NameTable::new(), imports: NameTable::new(), parent: None }
    }

    /// An empty scope below `parent`.
    pub fn with_parent(parent: ModuleId) -> (r: ModuleScope)
        ensures
            r@.items == Map::<SymbolId, DefId>::empty(),
            r@.imports == Map::<SymbolId, DefId>::empty(),
            r@.parent == Some(parent),
    {
        ModuleScope { items: NameTable::new(), imports: NameTable::new(), parent: Some(parent) }
    }

    /// Register a top-level item of this module.
    pub fn define_item(&mut self, name: SymbolId, def_id: DefId)
        ensures
            final(self)@.items == old(self)@.items.insert(name, def_id),
            final(self)@.imports == old(self)@.imports,
            final(self)@.parent == old(self)@.parent,
    {
        self.items.insert(name, def_id);
    }

    /// Register an import (alias to target definition).
    pub fn define_import(&mut self, alias: SymbolId, target: DefId)
        ensures
            final(self)@.imports == old(self)@.imports.insert(alias, target),
            final(self)@.items == old(self)@.items,
            final(self)@.parent == old(self)@.parent,
    {
        self.imports.insert(alias, target);
    }

    /// Look a name up in this scope only: items first, then imports.
    pub fn lookup(&self, name: &SymbolId) -> (r: Option<DefId>)
        ensures
            r == scope_find(self@, *name),
    {
        match self.items.get(name) {
            Some(d) => Some(d),
            None => self.imports.get(name),
        }
    }

    /// Look a name up in this scope, then in the parent's, and so on up the
    /// chain; a parent outside `scopes` ends the search.  The chain must
    /// end (a lookup along a cyclic chain does not return).
    pub fn lookup_with_parent(&self, name: &SymbolId, scopes: &[ModuleScope]) -> (r: Option<DefId>)
        requires
            exists|f: nat| chain_find(scope_models(scopes@), self@, *name, f) is Some,
        ensures
            forall|f: nat|
                #![trigger chain_find(scope_models(scopes@), self@, *name, f)]
                chain_find(scope_models(scopes@), self@, *name, f) is Some
                    ==> chain_find(scope_models(scopes@), self@, *name, f) == Some(r),
    {
        let ghost ms = scope_models(scopes@);
        let ghost f0 = choose|f: nat| chain_find(ms, self@, *name, f) is Some;
        let ghost answer = chain_find(ms, self@, *name, f0);
        let mut cur: &ModuleScope = self;
        let ghost mut fuel: nat = f0;
        let r;
        loop
            invariant_except_break
                chain_find(ms, cur@, *name, fuel) == answer,
            invariant
                ms == scope_models(scopes@),
                answer is Some,
                answer == chain_find(ms, self@, *name, f0),
            ensures
                answer == Some(r),
            decreases fuel,
        {
            match cur.lookup(name) {
                Some(d) => {
                    r = Some(d);
                    break;
                },
                None => {},
            }
            match cur.parent {
                Some(p) => {
                    if (p.0 as usize) < scopes.len() {
                        cur = &scopes[p.0 as usize];
                        proof {
                            fuel = (fuel - 1) as nat;
                        }
                    } else {
                        r = None;
                        break;
                    }
                },
                None => {
                    r = None;
                    break;
                },
            }
        }
        proof {
            assert forall|f: nat|
                #![trigger chain_find(ms, self@, *name, f)]
                chain_find(ms, self@, *name, f) is Some implies chain_find(ms, self@, *name, f) == Some(r) by {
                if f <= f0 {
                    lemma_chain_find_mono(ms, self@, *name, f, f0);
                } else {
                    lemma_chain_find_mono(ms, self@, *name, f0, f);
                }
            }
        }
        r
    }
}

/// The models of a sequence of scopes.
pub open spec fn scope_models(scopes: Seq<ModuleScope>) -> Seq<ScopeModel> {
    scopes.map_values(|s: ModuleScope| s@)
}

impl Default for ModuleScope {
    fn default() -> (r: ModuleScope)
        ensures
            r@.items == Map::<SymbolId, DefId>::empty(),
            r@.imports == Map::<SymbolId, DefId>::empty(),
            r@.parent is None,
    {
        ModuleScope::new()
    }
}

/// A scope's own items shadow its imports, and both shadow the parent
/// chain: a name found locally is answered locally.
pub proof fn law_local_shadows_parent(scopes: Seq<ScopeModel>, s: ScopeModel, name: SymbolId, fuel: nat)
    requires
        fuel > 0,
        scope_find(s, name) is Some,
    ensures
        chain_find(scopes, s, name, fuel) == Some(scope_find(s, name)),
{
}

/// A name missing locally is answered by the parent's chain.
pub proof fn law_falls_back_to_parent(scopes: Seq<ScopeModel>, s: ScopeModel, name: SymbolId, fuel: nat)
    requires
        fuel > 0,
        scope_find(s, name) is None,
        s.parent matches Some(p) && (p.0 as int) < scopes.len(),
    ensures
        chain_find(scopes, s, name, fuel) == chain_find(scopes, scopes[(s.parent->0).0 as int], name, (fuel - 1) as nat),
{
}

// ---------------------------------------------------------------------------
// Text scanner for `mod` declarations
// ---------------------------------------------------------------------------

/// Index of the first `'\n'` at or after `i`, or the length if none.
pub open spec fn next_newline(s: Seq<char>, i: int) -> int
    decreases s.len() - i,
{
    if i >= s.len() {
        s.len() as int
    } else if s[i] == '\n' {
        i
    } else {
        next_newline(s, i + 1)
    }
}

/// Number of leading Unicode whitespace characters.
pub open spec fn leading_ws(s: Seq<char>) -> int
    decreases s.len(),
{
    if s.len() > 0 && is_unicode_whitespace(s[0]) {
        1 + leading_ws(s.drop_first())
    } else {
        0
    }
}

/// Number of leading characters that may continue an identifier.
pub open spec fn ident_tail_len(s: Seq<char>) -> int
    decreases s.len(),
{
    if s.len() > 0 && is_ident_continue(s[0]) {
        1 + ident_tail_len(s.drop_first())
    } else {
        0
    }
}

/// The identifier at the start of `s`, the longest prefix that matches
/// `[a-zA-Z_][a-zA-Z0-9_]*`, or `None` where no character of it matches.
pub open spec fn spec_ident(s: Seq<char>) -> Option<Seq<char>> {
    if s.len() > 0 && is_ident_start(s[0]) {
        Some(s.take(1 + ident_tail_len(s.drop_first())))
    } else {
        None
    }
}

pub open spec fn mod_kw() -> Seq<char> {
    seq!['m', 'o', 'd', ' ']
}

pub open spec fn pub_mod_kw() -> Seq<char> {
    seq!['p', 'u', 'b', ' ', 'm', 'o', 'd', ' ']
}

/// The module declared by one source line, if it is `mod <ident>` or
/// `pub mod <ident>` after leading whitespace and is not a `//` comment.
pub open spec fn line_mod_decl(line: Seq<char>) -> Option<Seq<char>> {
    let t = line.skip(leading_ws(line));
    if t.len() >= 2 && t[0] == '/' && t[1] == '/' {
        None
    } else if mod_kw().is_prefix_of(t) {
        spec_ident(t.skip(4))
    } else if pub_mod_kw().is_prefix_of(t) {
        spec_ident(t.skip(8))
    } else {
        None
    }
}

/// The modules declared by the lines of `s` starting at index `start`.
pub open spec fn mod_decls_from(s: Seq<char>, start: int) -> Seq<Seq<char>>
    decreases s.len() + 1 - start,
{
    if start < 0 || start > s.len() {
        Seq::empty()
    } else {
        let e = next_newline(s, start);
        proof {
            lemma_next_newline_bounds(s, start);
        }
        let here = match line_mod_decl(s.subrange(start, e)) {
            Some(n) => seq![n],
            None => Seq::empty(),
        };
        here + mod_decls_from(s, e + 1)
    }
}

pub proof fn lemma_next_newline_bounds(s: Seq<char>, i: int)
    requires
        0 <= i <= s.len(),
    ensures
        i <= next_newline(s, i) <= s.len(),
        next_newline(s, i) < s.len() ==> s[next_newline(s, i)] == '\n',
        forall|k: int| i <= k < next_newline(s, i) ==> s[k] != '\n',
    decreases s.len() - i,
{
    if i < s.len() && s[i] != '\n' {
        lemma_next_newline_bounds(s, i + 1);
    }
}

pub proof fn lemma_leading_ws_bounds(s: Seq<char>)
    ensures
        0 <= leading_ws(s) <= s.len(),
        leading_ws(s) < s.len() ==> !is_unicode_whitespace(s[leading_ws(s)]),
        forall|k: int| 0 <= k < leading_ws(s) ==> is_unicode_whitespace(s[k]),
    decreases s.len(),
{
    if s.len() > 0 && is_unicode_whitespace(s[0]) {
        lemma_leading_ws_bounds(s.drop_first());
        assert forall|k: int| 0 <= k < leading_ws(s) implies is_unicode_whitespace(s[k]) by {
            if k > 0 {
                assert(s[k] == s.drop_first()[k - 1]);
            }
        }
    }
}

proof fn lemma_ident_tail_bounds(s: Seq<char>)
    ensures
        0 <= ident_tail_len(s) <= s.len(),
        ident_tail_len(s) < s.len() ==> !is_ident_continue(s[ident_tail_len(s)]),
        forall|k: int| 0 <= k < ident_tail_len(s) ==> is_ident_continue(s[k]),
    decreases s.len(),
{
    if s.len() > 0 && is_ident_continue(s[0]) {
        lemma_ident_tail_bounds(s.drop_first());
        assert forall|k: int| 0 <= k < ident_tail_len(s) implies is_ident_continue(s[k]) by {
            if k > 0 {
                assert(s[k] == s.drop_first()[k - 1]);
            }
        }
    }
}

/// Index just past the leading whitespace of `cs[from..to]`.
fn skip_leading_ws(cs: &[char], from: usize, to: usize) -> (r: usize)
    requires
        from <= to <= cs@.len(),
    ensures
        r == from + leading_ws(cs@.subrange(from as int, to as int)),
{
    let ghost line = cs@.subrange(from as int, to as int);
    proof {
        lemma_leading_ws_bounds(line);
    }
    let mut i = from;
    while i < to && char_is_whitespace(cs[i])
        invariant
            from <= i <= to,
            to <= cs@.len(),
            line == cs@.subrange(from as int, to as int),
            0 <= leading_ws(line) <= line.len(),
            leading_ws(line) < line.len() ==> !is_unicode_whitespace(line[leading_ws(line)]),
            forall|k: int| 0 <= k < leading_ws(line) ==> is_unicode_whitespace(line[k]),
            i - from <= leading_ws(line),
        decreases to - i,
    {
        assert(line[i - from] == cs@[i as int]);
        i = i + 1;
    }
    proof {
        if i < to {
            assert(line[i - from] == cs@[i as int]);
        }
    }
    i
}

/// Whether `cs[from..to]` starts with the characters of `prefix`.
fn has_prefix(cs: &[char], from: usize, to: usize, prefix: &[char]) -> (r: bool)
    requires
        from <= to <= cs@.len(),
    ensures
        r <==> prefix@.is_prefix_of(cs@.subrange(from as int, to as int)),
{
    if prefix.len() > to - from {
        return false;
    }
    let mut k: usize = 0;
    while k < prefix.len()
        invariant
            k <= prefix@.len(),
            prefix@.len() <= to - from,
            from <= to <= cs@.len(),
            forall|j: int| 0 <= j < k ==> prefix@[j] == cs@[from + j],
        decreases prefix@.len() - k,
    {
        if prefix[k] != cs[from + k] {
            return false;
        }
        k = k + 1;
    }
    true
}

/// Where the module name starts after a `mod ` or `pub mod ` prefix at
/// `cs[from..to]`; `None` if neither prefix is there.
fn stripped_mod_prefix(cs: &[char], from: usize, to: usize) -> (r: Option<usize>)
    requires
        from <= to <= cs@.len(),
    ensures
        ({
            let t = cs@.subrange(from as int, to as int);
            &&& mod_kw().is_prefix_of(t) ==> r == Some((from + 4) as usize)
            &&& !mod_kw().is_prefix_of(t) && pub_mod_kw().is_prefix_of(t) ==> r == Some((from + 8) as usize)
            &&& !mod_kw().is_prefix_of(t) && !pub_mod_kw().is_prefix_of(t) ==> r is None
        }),
{
    let m = ['m', 'o', 'd', ' '];
    let pm = ['p', 'u', 'b', ' ', 'm', 'o', 'd', ' '];
    assert(m@ == mod_kw());
    assert(pm@ == pub_mod_kw());
    if has_prefix(cs, from, to, &m) {
        Some(from + 4)
    } else if has_prefix(cs, from, to, &pm) {
        Some(from + 8)
    } else {
        None
    }
}

/// The identifier at the start of `cs[from..to]`.
fn extract_ident(cs: &[char], from: usize, to: usize) -> (r: Option<String>)
    requires
        from <= to <= cs@.len(),
    ensures
        r is Some <==> spec_ident(cs@.subrange(from as int, to as int)) is Some,
        r matches Some(name) ==> Some(name@) == spec_ident(cs@.subrange(from as int, to as int)),
{
    let ghost s = cs@.subrange(from as int, to as int);
    if from == to {
        return None;
    }
    let first = cs[from];
    if !char_is_ident_start(first) {
        return None;
    }
    let ghost tail = s.drop_first();
    proof {
        lemma_ident_tail_bounds(tail);
    }
    let mut i = from + 1;
    while i < to && char_is_ident_continue(cs[i])
        invariant
            from + 1 <= i <= to,
            to <= cs@.len(),
            s == cs@.subrange(from as int, to as int),
            tail == s.drop_first(),
            0 <= ident_tail_len(tail) <= tail.len(),
            ident_tail_len(tail) < tail.len() ==> !is_ident_continue(tail[ident_tail_len(tail)]),
            forall|k: int| 0 <= k < ident_tail_len(tail) ==> is_ident_continue(tail[k]),
            i - from - 1 <= ident_tail_len(tail),
        decreases to - i,
    {
        assert(tail[i - from - 1] == cs@[i as int]);
        i = i + 1;
    }
    proof {
        if i < to {
            assert(tail[i - from - 1] == cs@[i as int]);
        }
        assert(i - from == 1 + ident_tail_len(tail));
    }
    let name = string_from_chars(slice_range(cs, from, i).as_slice());
    assert(cs@.subrange(from as int, i as int) == s.take(1 + ident_tail_len(tail)));
    Some(name)
}

fn slice_range(cs: &[char], from: usize, to: usize) -> (r: Vec<char>)
    requires
        from <= to <= cs@.len(),
    ensures
        r@ == cs@.subrange(from as int, to as int),
{
    let mut out: Vec<char> = Vec::new();
    let mut i = from;
    while i < to
        invariant
            from <= i <= to,
            to <= cs@.len(),
            out@ == cs@.subrange(from as int, i as int),
        decreases to - i,
    {
        out.push(cs[i]);
        assert(cs@.subrange(from as int, i + 1) == cs@.subrange(from as int, i as int).push(cs@[i as int]));
        i = i + 1;
    }
    out
}

/// The module declared on the line `cs[from..to]`, if any.
fn line_decl(cs: &[char], from: usize, to: usize) -> (r: Option<String>)
    requires
        from <= to <= cs@.len(),
    ensures
        r is Some <==> line_mod_decl(cs@.subrange(from as int, to as int)) is Some,
        r matches Some(name) ==> Some(name@) == line_mod_decl(cs@.subrange(from as int, to as int)),
{
    let ghost line = cs@.subrange(from as int, to as int);
    let t0 = skip_leading_ws(cs, from, to);
    let ghost t = line.skip(leading_ws(line));
    proof {
        lemma_leading_ws_bounds(line);
        assert(t == cs@.subrange(t0 as int, to as int));
    }
    if to - t0 >= 2 && cs[t0] == '/' && cs[t0 + 1] == '/' {
        return None;
    }
    match stripped_mod_prefix(cs, t0, to) {
        Some(rest) => {
            proof {
                if mod_kw().is_prefix_of(t) {
                    assert(t.skip(4) == cs@.subrange(rest as int, to as int));
                } else {
                    assert(t.skip(8) == cs@.subrange(rest as int, to as int));
                }
            }
            extract_ident(cs, rest, to)
        },
        None => None,
    }
}

/// Extract `mod` declarations from source text: every line that reads
/// `mod <ident>` or `pub mod <ident>` after leading whitespace, and is not
/// a `//` comment, contributes its identifier, in source order.
pub fn extract_mod_declarations(source: &str) -> (r: Vec<String>)
    ensures
        r@.map_values(|s: String| s@) == mod_decls_from(source@, 0),
{
    let cs = str_chars(source);
    let n = cs.len();
    let mut mods: Vec<String> = Vec::new();
    let mut start: usize = 0;
    loop
        invariant_except_break
            mod_decls_from(source@, 0) == mods@.map_values(|s: String| s@) + mod_decls_from(source@, start as int),
        invariant
            n == cs@.len(),
            cs@ == source@,
            start <= n,
        ensures
            mod_decls_from(source@, 0) == mods@.map_values(|s: String| s@),
        decreases n - start,
    {
        let ghost before = mods@;
        proof {
            lemma_next_newline_bounds(cs@, start as int);
        }
        let mut e = start;
        while e < n && cs[e] != '\n'
            invariant
                start <= e <= n,
                n == cs@.len(),
                next_newline(cs@, start as int) >= e,
                forall|k: int| start <= k < e ==> cs@[k] != '\n',
                start <= next_newline(cs@, start as int) <= n,
                next_newline(cs@, start as int) < n ==> cs@[next_newline(cs@, start as int)] == '\n',
                forall|k: int| start <= k < next_newline(cs@, start as int) ==> cs@[k] != '\n',
            decreases n - e,
        {
            e = e + 1;
        }
        assert(e == next_newline(cs@, start as int));
        let d = line_decl(cs.as_slice(), start, e);
        let ghost here = match line_mod_decl(cs@.subrange(start as int, e as int)) {
            Some(nm) => seq![nm],
            None => Seq::<Seq<char>>::empty(),
        };
        match d {
            Some(name) => {
                mods.push(name);
            },
            None => {},
        }
        proof {
            assert(mods@.map_values(|s: String| s@) == before.map_values(|s: String| s@) + here);
            assert(mod_decls_from(source@, start as int) == here + mod_decls_from(source@, e + 1));
        }
        if e == n {
            assert(mod_decls_from(source@, e + 1) == Seq::<Seq<char>>::empty());
            assert(mods@.map_values(|s: String| s@) + Seq::<Seq<char>>::empty() == mods@.map_values(|s: String| s@));
            break;
        }
        start = e + 1;
    }
    mods
}

} // verus!
