//! Symbol interning and the definition table.
//!
//! Every identifier is interned once and referred to by a [`SymbolId`];
//! top-level definitions get a [`DefId`] that indexes the [`DefTable`].
use vstd::prelude::*;
use crate::module::ModuleId;

verus! {

/// A stable identifier for an interned string.
#[derive(Debug, Clone, Copy, PartialEq, Eq, Hash, Structural)]
pub struct SymbolId(pub u32);

/// A stable identifier for a top-level definition.
#[derive(Debug, Clone, Copy, PartialEq, Eq, Hash, Structural)]
pub struct DefId(pub u32);

/// Interning of a string into a table of distinct strings: the resulting
/// table and the index of the string in it.
pub open spec fn spec_intern(table: Seq<Seq<char>>, s: Seq<char>) -> (Seq<Seq<char>>, int) {
    if table.contains(s) {
        (table, choose|i: int| 0 <= i < table.len() && table[i] == s)
    } else {
        (table.push(s), table.len() as int)
    }
}

/// No string occurs twice in the table.
pub open spec fn distinct_strings(table: Seq<Seq<char>>) -> bool {
    forall|i: int, j: int| 0 <= i < j < table.len() ==> table[i] != table[j]
}

/// A string interner: each distinct string is stored once, and its
/// [`SymbolId`] is its position in the table.
#[derive(Debug)]
pub struct SymbolInterner {
    strings: Vec<String>,
}

impl View for SymbolInterner {
    type V = Seq<Seq<char>>;

    closed spec fn view(&self) -> Seq<Seq<char>> {
        self.strings@.map_values(|s: String| s@)
    }
}

impl SymbolInterner {
    /// The interner's invariant: distinct strings, and every index fits
    /// a `SymbolId`.
    pub open spec fn wf(&self) -> bool {
        &&& distinct_strings(self@)
        &&& self@.len() <= u32::MAX
    }

    /// Every interner keeps [`SymbolInterner::wf`]; a caller learns it by
    /// `use_type_invariant`.
    #[verifier::type_invariant]
    pub open spec fn interner_invariant(self) -> bool {
        self.wf()
    }

    /// Intern a string, returning its [`SymbolId`].  A string that was
    /// already interned gets the id it was first given.
    pub fn intern(&mut self, s: &str) -> (r: SymbolId)
        requires
            old(self)@.contains(s@) || old(self)@.len() < u32::MAX,
        ensures
            final(self).wf(),
            (final(self)@, r.0 as int) == spec_intern(old(self)@, s@),
    {
        proof {
            use_type_invariant(&*self);
        }
        let owned = s.to_owned();
        let n = self.strings.len();
        let mut i: usize = 0;
        while i < n
            invariant
                n == self.strings@.len(),
                i <= n,
                owned@ == s@,
                self@ == old(self)@,
                self.wf(),
                forall|j: int| 0 <= j < i ==> self@[j] != s@,
                self@.len() == n,
            decreases n - i,
        {
            if self.strings[i] == owned {
                assert(self@[i as int] == s@);
                assert(self@.contains(s@));
                let ghost k = choose|k: int| 0 <= k < self@.len() && self@[k] == s@;
                assert(k == i) by {
                    if k != i {
                        if k < i {
                            assert(self@[k] != s@);
                        } else {
                            assert(distinct_strings(self@));
                            assert(self@[i as int] != self@[k]);
                        }
                    }
                }
                return SymbolId(i as u32);
            }
            i = i + 1;
        }
        assert(!self@.contains(s@));
        let ghost before = self@;
        let mut strings: Vec<String> = Vec::new();
        core::mem::swap(&mut strings, &mut self.strings);
        strings.push(owned);
        proof {
            assert(strings@.map_values(|t: String| t@) == before.push(s@));
        }
        self.strings = strings;
        assert(self@ == before.push(s@));
        SymbolId(n as u32)
    }

    /// The string interned under `id`, if `id` came from this interner.
    pub fn lookup(&self, id: SymbolId) -> (r: Option<&str>)
        ensures
            r is Some <==> id.0 < self@.len(),
            r matches Some(t) ==> t@ == self@[id.0 as int],
    {
        if (id.0 as usize) < self.strings.len() {
            Some(self.strings[id.0 as usize].as_str())
        } else {
            None
        }
    }

    /// The id that the next newly interned string would receive.
    pub fn next_id(&self) -> (r: SymbolId)
        ensures
            r.0 == self@.len(),
    {
        proof {
            use_type_invariant(self);
        }
        SymbolId(self.strings.len() as u32)
    }

    /// The number of interned strings.
    pub fn len(&self) -> (r: usize)
        ensures
            r == self@.len(),
    {
        self.strings.len()
    }
}

impl Clone for SymbolInterner {
    fn clone(&self) -> (r: SymbolInterner)
        ensures
            r@ == self@,
    {
        let strings = self.strings.clone();
        proof {
            use_type_invariant(self);
            assert forall|i: int| 0 <= i < strings@.len() implies strings@[i] == self.strings@[i] by {
                assert(cloned::<String>(self.strings[i], strings[i]));
            }
            assert(strings@ =~= self.strings@);
        }
        SymbolInterner { strings }
    }
}

impl Default for SymbolInterner {
    fn default() -> (r: SymbolInterner)
        ensures
            r@ == Seq::<Seq<char>>::empty(),
            r.wf(),
    {
        let r = SymbolInterner { strings: Vec::new() };
        assert(r@ == Seq::<Seq<char>>::empty());
        r
    }
}

/// Interning the same string twice gives the same id and leaves the table
/// as the first interning left it.
pub proof fn law_intern_idempotent(table: Seq<Seq<char>>, s: Seq<char>)
    requires
        distinct_strings(table),
    ensures
        spec_intern(spec_intern(table, s).0, s) == spec_intern(table, s),
{
    let (t1, i1) = spec_intern(table, s);
    assert(t1.contains(s)) by {
        if !table.contains(s) {
            assert(t1[table.len() as int] == s);
        }
    }
    let k = choose|k: int| 0 <= k < t1.len() && t1[k] == s;
    if table.contains(s) {
        assert(k == i1) by {
            if k != i1 {
                if k < i1 {
                    assert(table[k] != table[i1]);
                } else {
                    assert(table[i1] != table[k]);
                }
            }
        }
    } else {
        assert(k == i1) by {
            if k < table.len() {
                assert(table[k] == s);
                assert(table.contains(s));
            }
        }
    }
}

/// The interned id always names the interned string, and interning keeps
/// the table free of duplicates.
pub proof fn law_intern_lookup(table: Seq<Seq<char>>, s: Seq<char>)
    requires
        distinct_strings(table),
    ensures
        0 <= spec_intern(table, s).1 < spec_intern(table, s).0.len(),
        spec_intern(table, s).0[spec_intern(table, s).1] == s,
        distinct_strings(spec_intern(table, s).0),
        spec_intern(table, s).0.take(table.len() as int) == table,
{
    if !table.contains(s) {
        let t1 = table.push(s);
        assert(t1.take(table.len() as int) == table);
        assert forall|i: int, j: int| 0 <= i < j < t1.len() implies t1[i] != t1[j] by {
            if j == table.len() {
                assert(table[i] != s);
            }
        }
    } else {
        assert(table.take(table.len() as int) == table);
    }
}

/// Distinct strings are given distinct ids by successive internings.
pub proof fn law_intern_injective(table: Seq<Seq<char>>, s: Seq<char>, t: Seq<char>)
    requires
        distinct_strings(table),
        s != t,
    ensures
        spec_intern(spec_intern(table, s).0, t).1 != spec_intern(table, s).1,
        spec_intern(spec_intern(table, s).0, t).0[spec_intern(table, s).1] == s,
{
    law_intern_lookup(table, s);
    let t1 = spec_intern(table, s).0;
    law_intern_lookup(t1, t);
    let t2 = spec_intern(t1, t).0;
    assert(t2.take(t1.len() as int)[spec_intern(table, s).1] == t1[spec_intern(table, s).1]);
}

/// The kind of definition a [`DefId`] refers to.
#[derive(Debug, Clone, Copy, PartialEq, Eq, Hash, Structural)]
pub enum DefKind {
    Function,
    Struct,
    Enum,
    Module,
    Use,
    External,
}

/// One entry of the [`DefTable`]: the owning module, the index within that
/// module, and the kind of definition.
#[derive(Debug, Clone, Copy, PartialEq, Eq, Hash, Structural)]
pub struct DefEntry {
    pub module: ModuleId,
    pub local_index: u32,
    pub kind: DefKind,
}

/// Maps every [`DefId`] to its [`DefEntry`]; `DefId(i)` is entry `i`.
#[derive(Debug)]
pub struct DefTable {
    entries: Vec<DefEntry>,
}

impl View for DefTable {
    type V = Seq<DefEntry>;

    closed spec fn view(&self) -> Seq<DefEntry> {
        self.entries@
    }
}

impl DefTable {
    /// An empty table.
    pub fn new() -> (r: DefTable)
        ensures
            r@ == Seq::<DefEntry>::empty(),
    {
        DefTable { entries: Vec::new() }
    }

    /// Register a definition and return the id it is stored under.
    pub fn register(&mut self, entry: DefEntry) -> (r: DefId)
        requires
            old(self)@.len() < u32::MAX,
        ensures
            final(self)@ == old(self)@.push(entry),
            r.0 == old(self)@.len(),
    {
        let id = DefId(self.entries.len() as u32);
        self.entries.push(entry);
        id
    }

    /// The entry registered under `id`, if any.
    pub fn lookup(&self, id: DefId) -> (r: Option<&DefEntry>)
        ensures
            r is Some <==> id.0 < self@.len(),
            r matches Some(e) ==> *e == self@[id.0 as int],
    {
        if (id.0 as usize) < self.entries.len() {
            Some(&self.entries[id.0 as usize])
        } else {
            None
        }
    }

    /// Every definition with its id, in id order.
    pub fn iter(&self) -> (r: Vec<(DefId, &DefEntry)>)
        ensures
            r@.len() == self@.len(),
            forall|i: int| 0 <= i < r@.len() ==> (#[trigger] r@[i]).0.0 == i as u32 && *r@[i].1 == self@[i],
    {
        let mut out: Vec<(DefId, &DefEntry)> = Vec::new();
        let mut i: usize = 0;
        while i < self.entries.len()
            invariant
                i <= self@.len(),
                out@.len() == i,
                forall|k: int| 0 <= k < i ==> (#[trigger] out@[k]).0.0 == k as u32 && *out@[k].1 == self@[k],
            decreases self@.len() - i,
        {
            out.push((DefId(i as u32), &self.entries[i]));
            i = i + 1;
        }
        out
    }

    /// The number of registered definitions.
    pub fn len(&self) -> (r: usize)
        ensures
            r == self@.len(),
    {
        self.entries.len()
    }

    /// Whether no definition is registered.
    pub fn is_empty(&self) -> (r: bool)
        ensures
            r <==> self@.len() == 0,
    {
        self.entries.len() == 0
    }
}

impl Default for DefTable {
    fn default() -> (r: DefTable)
        ensures
            r@ == Seq::<DefEntry>::empty(),
    {
        DefTable::new()
    }
}

/// Registering an entry makes it retrievable under the returned id, and
/// leaves every earlier entry where it was.
pub proof fn law_register_lookup(table: Seq<DefEntry>, e: DefEntry, id: int)
    requires
        0 <= id < table.len(),
    ensures
        table.push(e)[table.len() as int] == e,
        table.push(e)[id] == table[id],
{
}

/// Visibility of a top-level definition.
#[derive(Debug, Clone, Copy, PartialEq, Eq, Hash, Default, Structural)]
pub enum Visibility {
    #[default]
    Private,
    Public,
}

} // verus!
