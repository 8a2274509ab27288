//! The monomorphization pass: collect the instantiations a program needs,
//! build a substituted copy of each generic function and struct, send
//! every call and literal to its copy, and lower everything to MIR.
use vstd::prelude::*;
use crate::error::CompilerError;
use crate::hir::function::{HirFunction, HirProgram, StructDef, copy_enum_def, copy_struct_def, copy_ids, copy_typed, same_enum, same_struct};
use crate::hir::symbol::{DefId, SymbolId, SymbolInterner, spec_intern, distinct_strings};
use crate::hir::types::{HirType, Substitution, Ty, model_of, models_of, ty_substitute, lemma_models_of_len};
use crate::mir::monomorphize::{
    CallRemap, Instantiation, NameCounter, copy_name, StructInstantiation, clone_types, monomorphized_name_spec, stmts_subst, substitute_stmts,
    substitute_type,
};
use crate::mir::{MirFunction, MirProgram};
use crate::mir::lower::lemma_no_program_errors;
use crate::mir::verify::program_errors;
use crate::mir::lower::{MirLower, check_function, first_failure, function_cost, param_names, reported_by, stmts_cost};
use crate::mir::monomorphize::shape::{lemma_rewrite_stmts, lemma_subst_stmts, lemma_rewrite_straight_lowered};
use crate::mir::monomorphize::rewrite_stmts;
use crate::hir::function::EnumDef;
use crate::mir::monomorphize::StructRemap;
use crate::mir::monomorphize::collect::{
    Collected, Collector, Groups, Site, add_to_group, first_struct_named, groups_ok, collect_program, collect_sites, functions_sites, inst_models, no_instantiations,
    program_collection, site_step, struct_inst_models,
};
use crate::mir::lower::{lowering_outcome, same_signature, straight_body, straight_lowered, switches_test_true};
use crate::mir::verify::{ErrorView, function_errors};

verus! {

/// The instantiations of a collection in the order they are built: each
/// definition's type-argument lists in order, definitions in order.
pub open spec fn flatten(g: Groups) -> Seq<(DefId, Seq<Ty>)>
    decreases g.len(),
{
    if g.len() == 0 {
        Seq::empty()
    } else {
        flatten(g.drop_last()) + g.last().1.map_values(|v: Seq<Ty>| (g.last().0, v))
    }
}

/// Groups with distinct definitions, each listing distinct type arguments.
pub open spec fn groups_distinct(g: Groups) -> bool {
    &&& groups_ok(g)
    &&& forall|i: int| 0 <= i < g.len() ==> (#[trigger] g[i]).1.no_duplicates()
}

proof fn lemma_add_keeps_distinct(g: Groups, k: DefId, v: Seq<Ty>)
    requires
        groups_distinct(g),
    ensures
        groups_distinct(add_to_group(g, k, v)),
{
    if exists|i: int| 0 <= i < g.len() && g[i].0 == k {
        let i = choose|i: int| 0 <= i < g.len() && g[i].0 == k;
        if !g[i].1.contains(v) {
            let g2 = g.update(i, (k, g[i].1.push(v)));
            assert(g2[i].1.no_duplicates()) by {
                assert forall|a: int, b: int| 0 <= a < b < g2[i].1.len() implies g2[i].1[a] != g2[i].1[b] by {
                    if b == g[i].1.len() {
                        assert(g[i].1.contains(g[i].1[a]));
                    }
                }
            }
            assert(groups_ok(g2));
        }
    } else {
        let g2 = g.push((k, seq![v]));
        assert(g2[g.len() as int].1.no_duplicates());
        assert(groups_ok(g2)) by {
            assert forall|a: int, b: int| 0 <= a < b < g2.len() implies g2[a].0 != g2[b].0 by {
                if b == g.len() {
                    assert(g2[a] == g[a]);
                }
            }
        }
    }
}

proof fn lemma_collect_keeps_distinct(p: HirProgram, c: Collected, sites: Seq<Site>)
    requires
        groups_distinct(c.calls),
        groups_distinct(c.structs),
    ensures
        collect_sites(p, c, sites) matches Ok(c2) ==> groups_distinct(c2.calls) && groups_distinct(c2.structs),
    decreases sites.len(),
{
    if sites.len() > 0 {
        lemma_collect_keeps_distinct(p, c, sites.drop_last());
        match collect_sites(p, c, sites.drop_last()) {
            Ok(c1) => {
                match sites.last() {
                    Site::Call { callee, arg_tys, type_args } => {
                        lemma_add_keeps_distinct(c1.calls, callee, type_args);
                        lemma_add_keeps_distinct(c1.calls, callee, arg_tys);
                    },
                    Site::StructLit { name, type_args } => {
                        if exists|i: int| first_struct_named(p.structs@, name, i) {
                            let did = p.structs@[choose|i: int| first_struct_named(p.structs@, name, i)].def_id;
                            lemma_add_keeps_distinct(c1.structs, did, type_args);
                        }
                    },
                }
            },
            Err(_) => {},
        }
    }
}

proof fn lemma_flatten_distinct(g: Groups)
    requires
        groups_distinct(g),
    ensures
        flatten(g).no_duplicates(),
        forall|j: int| 0 <= j < flatten(g).len() ==> exists|i: int| 0 <= i < g.len() && (#[trigger] flatten(g)[j]).0 == g[i].0,
    decreases g.len(),
{
    if g.len() > 0 {
        let h = g.drop_last();
        assert(groups_distinct(h)) by {
            assert forall|i: int| 0 <= i < h.len() implies (#[trigger] h[i]).1.no_duplicates() by {
                assert(h[i] == g[i]);
            }
        }
        lemma_flatten_distinct(h);
        let last = g.last();
        let tail = last.1.map_values(|v: Seq<Ty>| (last.0, v));
        let f = flatten(g);
        assert(f == flatten(h) + tail);
        assert forall|a: int, b: int| 0 <= a < b < f.len() implies f[a] != f[b] by {
            let n = flatten(h).len();
            if b < n {
                assert(f[a] == flatten(h)[a]);
                assert(f[b] == flatten(h)[b]);
            } else if a >= n {
                assert(f[a] == tail[a - n]);
                assert(f[b] == tail[b - n]);
                assert(last.1[a - n] != last.1[b - n]);
            } else {
                assert(f[a] == flatten(h)[a]);
                let i = choose|i: int| 0 <= i < h.len() && flatten(h)[a].0 == h[i].0;
                assert(h[i] == g[i]);
                assert(g[i].0 != g[g.len() - 1].0);
                assert(f[b] == tail[b - n]);
            }
        }
        assert forall|j: int| 0 <= j < f.len() implies exists|i: int| 0 <= i < g.len() && (#[trigger] f[j]).0 == g[i].0 by {
            let n = flatten(h).len();
            if j < n {
                assert(f[j] == flatten(h)[j]);
                let i = choose|i: int| 0 <= i < h.len() && flatten(h)[j].0 == h[i].0;
                assert(h[i] == g[i]);
            } else {
                assert(f[j] == tail[j - n]);
                assert(f[j].0 == g[g.len() - 1].0);
            }
        }
    }
}

/// Each generic function and struct is copied at most once per list of type
/// arguments: the instantiations a program's collection lists are pairwise
/// distinct.
pub proof fn law_instantiations_distinct(p: HirProgram)
    ensures
        program_collection(p) matches Ok(c) ==> flatten(c.calls).no_duplicates() && flatten(c.structs).no_duplicates(),
{
    let c0 = no_instantiations();
    assert(groups_distinct(c0.calls));
    assert(groups_distinct(c0.structs));
    lemma_collect_keeps_distinct(p, c0, functions_sites(p.functions@));
    match program_collection(p) {
        Ok(c) => {
            lemma_flatten_distinct(c.calls);
            lemma_flatten_distinct(c.structs);
        },
        Err(_) => {},
    }
}

/// How many times `k` occurs in `keys`.
pub open spec fn count_key(keys: Seq<DefId>, k: DefId) -> nat
    decreases keys.len(),
{
    if keys.len() == 0 {
        0
    } else {
        count_key(keys.drop_last(), k) + if keys.last() == k {
            1nat
        } else {
            0nat
        }
    }
}

proof fn lemma_count_push(keys: Seq<DefId>, key: DefId, k: DefId)
    ensures
        count_key(keys.push(key), k) == count_key(keys, k) + if key == k {
            1nat
        } else {
            0nat
        },
{
    assert(keys.push(key).drop_last() == keys);
}

/// The suffix counters agree with the keys numbered so far: one counter
/// per key, holding how often that key was numbered.
pub open spec fn counters_ok(cs: Seq<(DefId, NameCounter)>, keys: Seq<DefId>) -> bool {
    &&& forall|i: int, j: int| 0 <= i < j < cs.len() ==> cs[i].0 != cs[j].0
    &&& forall|i: int| 0 <= i < cs.len() ==> (#[trigger] cs[i]).1.next == count_key(keys, cs[i].0)
    &&& forall|k: DefId| (forall|i: int| 0 <= i < cs.len() ==> (#[trigger] cs[i]).0 != k) ==> count_key(keys, k) == 0
}

/// The next suffix for `key`: how often `key` was numbered before.  The
/// counters are shared by functions and structs, keyed by definition id.
fn next_suffix(counters: &mut Vec<(DefId, NameCounter)>, key: DefId, Ghost(keys): Ghost<Seq<DefId>>) -> (r: u32)
    requires
        counters_ok(old(counters)@, keys),
        count_key(keys, key) < u32::MAX,
    ensures
        r == count_key(keys, key),
        counters_ok(final(counters)@, keys.push(key)),
{
    proof {
        assert(keys.push(key).drop_last() == keys);
    }
    let mut i: usize = 0;
    while i < counters.len()
        invariant
            i <= counters@.len(),
            counters@ == old(counters)@,
            counters_ok(counters@, keys),
            count_key(keys, key) < u32::MAX,
            forall|j: int| 0 <= j < i ==> counters@[j].0 != key,
        decreases counters@.len() - i,
    {
        if counters[i].0 == key {
            assert(counters@[i as int].1.next == count_key(keys, key));
            let mut entry: (DefId, NameCounter) = (key, NameCounter { next: 0 });
            counters.set_and_swap(i, &mut entry);
            let n = entry.1.fresh_suffix();
            counters.set(i, entry);
            proof {
                let cs = counters@;
                let ks = keys.push(key);
                assert forall|a: int| 0 <= a < cs.len() implies (#[trigger] cs[a]).1.next == count_key(ks, cs[a].0) by {
                    lemma_count_push(keys, key, cs[a].0);
                    if a != i {
                        assert(cs[a] == old(counters)@[a]);
                        assert(old(counters)@[a].0 != key);
                    }
                }
                assert forall|k: DefId| (forall|a: int| 0 <= a < cs.len() ==> (#[trigger] cs[a]).0 != k) implies count_key(ks, k)
                    == 0 by {
                    lemma_count_push(keys, key, k);
                    assert(cs[i as int].0 != k);
                    assert forall|a: int| 0 <= a < old(counters)@.len() implies (#[trigger] old(counters)@[a]).0 != k by {
                        assert(cs[a].0 != k);
                    }
                }
                assert forall|a: int, b: int| 0 <= a < b < cs.len() implies cs[a].0 != cs[b].0 by {
                    assert(old(counters)@[a].0 != old(counters)@[b].0);
                }
            }
            return n;
        }
        i = i + 1;
    }
    proof {
        assert forall|a: int| 0 <= a < counters@.len() implies (#[trigger] counters@[a]).0 != key by {
        }
        assert(count_key(keys, key) == 0);
    }
    counters.push((key, NameCounter { next: 1 }));
    proof {
        let cs = counters@;
        let ks = keys.push(key);
        assert forall|a: int| 0 <= a < cs.len() implies (#[trigger] cs[a]).1.next == count_key(ks, cs[a].0) by {
            lemma_count_push(keys, key, cs[a].0);
            if a < cs.len() - 1 {
                assert(cs[a] == old(counters)@[a]);
                assert(old(counters)@[a].0 != key);
            }
        }
        assert forall|k: DefId| (forall|a: int| 0 <= a < cs.len() ==> (#[trigger] cs[a]).0 != k) implies count_key(ks, k) == 0 by {
            lemma_count_push(keys, key, k);
            assert(cs[cs.len() - 1].0 != k);
            assert forall|a: int| 0 <= a < old(counters)@.len() implies (#[trigger] old(counters)@[a]).0 != k by {
                assert(cs[a].0 != k);
            }
        }
    }
    0
}

/// Interning each name in turn into `t`.
pub open spec fn intern_all(t: Seq<Seq<char>>, names: Seq<Seq<char>>) -> Seq<Seq<char>>
    decreases names.len(),
{
    if names.len() == 0 {
        t
    } else {
        spec_intern(intern_all(t, names.drop_last()), names.last()).0
    }
}

/// The map a substitution built from `params` and `args` pairwise holds:
/// the first `k` pairs, later ones replacing earlier ones.
pub open spec fn param_map_upto(params: Seq<SymbolId>, args: Seq<Ty>, k: nat) -> Map<SymbolId, Ty>
    decreases k,
{
    if k == 0 {
        Map::empty()
    } else {
        param_map_upto(params, args, (k - 1) as nat).insert(params[k - 1], args[k - 1])
    }
}

/// The substitution of a generic definition's parameters by type
/// arguments, pairing them up as far as both go.
pub open spec fn param_map(params: Seq<SymbolId>, args: Seq<Ty>) -> Map<SymbolId, Ty> {
    param_map_upto(params, args, if params.len() <= args.len() { params.len() } else { args.len() })
}

/// The substitution pairing `params` with `args`.
fn build_substitution(params: &Vec<SymbolId>, args: &Vec<HirType>) -> (r: Substitution)
    ensures
        r@ == param_map(params@, crate::hir::types::models_of(args@)),
{
    proof {
        crate::hir::types::lemma_models_of_len(args@);
    }
    let n = if params.len() <= args.len() { params.len() } else { args.len() };
    let mut s = Substitution::new();
    let mut i: usize = 0;
    while i < n
        invariant
            i <= n,
            n <= params@.len(),
            n <= args@.len(),
            crate::hir::types::models_of(args@).len() == args@.len(),
            s@ == param_map_upto(params@, crate::hir::types::models_of(args@), i as nat),
        decreases n - i,
    {
        proof {
            crate::hir::types::lemma_models_of_index(args@, i as int);
        }
        s.insert(params[i], args[i].clone());
        i = i + 1;
    }
    s
}

proof fn lemma_intern_all_len(t: Seq<Seq<char>>, names: Seq<Seq<char>>)
    ensures
        intern_all(t, names).len() <= t.len() + names.len(),
    decreases names.len(),
{
    if names.len() > 0 {
        lemma_intern_all_len(t, names.drop_last());
    }
}

/// The id the `i`-th name receives when the names are interned in order
/// into an empty table.
pub open spec fn name_id(names: Seq<Seq<char>>, i: int) -> int {
    spec_intern(intern_all(Seq::empty(), names.take(i)), names[i]).1
}

/// The name copies of a definition are based on: its own, or `anon`.
pub open spec fn base_name(symbols: Seq<Seq<char>>, s: SymbolId) -> Seq<char> {
    if s.0 < symbols.len() {
        symbols[s.0 as int]
    } else {
        "anon"@
    }
}

/// `g` is the copy of function `callee` of `p` for the type arguments
/// `args`, with the given id: no generic parameters left, every
/// type substituted, everything else kept.
pub open spec fn instantiated_fn(p: HirProgram, callee: DefId, args: Seq<Ty>, def_id: DefId, g: HirFunction) -> bool {
    let f = p.functions@[callee.0 as int];
    let m = param_map(f.generic_params@, args);
    &&& g.def_id == def_id
    &&& g.generic_params@.len() == 0
    &&& g.params@.len() == f.params@.len()
    &&& forall|k: int| 0 <= k < f.params@.len() ==> (#[trigger] g.params@[k]).0 == f.params@[k].0 && model_of(g.params@[k].1)
        == ty_substitute(model_of(f.params@[k].1), m)
    &&& model_of(g.return_type) == ty_substitute(model_of(f.return_type), m)
    &&& stmts_subst(f.body@, g.body@, m)
    &&& g.span == f.span
    &&& g.module == f.module
    &&& g.visibility == f.visibility
}

/// `s` is the copy of struct `original` of `p` for the type arguments
/// `args`, with the given id: no generic parameters left, every field type
/// substituted, everything else kept.
pub open spec fn instantiated_struct(p: HirProgram, original: DefId, args: Seq<Ty>, def_id: DefId, s: StructDef) -> bool {
    let d = p.structs@[original.0 as int];
    let m = param_map(d.generic_params@, args);
    &&& s.def_id == def_id
    &&& s.generic_params@.len() == 0
    &&& s.fields@.len() == d.fields@.len()
    &&& forall|k: int| 0 <= k < d.fields@.len() ==> (#[trigger] s.fields@[k]).0 == d.fields@[k].0 && model_of(s.fields@[k].1)
        == ty_substitute(model_of(d.fields@[k].1), m)
    &&& s.span == d.span
    &&& s.module == d.module
    &&& s.visibility == d.visibility
}

/// The state of a monomorphization run.
pub struct Monomorphizer<'hir> {
    pub hir: &'hir HirProgram,
    /// Suffix counters, one per numbered definition.
    pub counters: Vec<(DefId, NameCounter)>,
    /// (generic function, type arguments) to its copy.
    pub remap: CallRemap,
    pub new_functions: Vec<HirFunction>,
    /// The names of the copies, interned apart from the program's symbols.
    pub new_symbols: SymbolInterner,
    /// (generic struct, type arguments) to its copy; the latest entry wins.
    pub struct_remap: Vec<(DefId, Vec<HirType>, DefId)>,
    pub new_structs: Vec<StructDef>,
    /// The definitions numbered so far, in order.
    pub keys: Ghost<Seq<DefId>>,
    /// The names given so far, in order.
    pub names: Ghost<Seq<Seq<char>>>,
}

impl<'hir> Monomorphizer<'hir> {
    pub open spec fn inv(&self) -> bool {
        &&& counters_ok(self.counters@, self.keys@)
        &&& self.new_symbols.wf()
        &&& self.new_symbols@ == intern_all(Seq::empty(), self.names@)
        &&& self.keys@.len() == self.names@.len()
        &&& self.names@.len() == self.new_functions@.len() + self.new_structs@.len()
    }

    /// A run over `hir` that has built nothing yet.
    pub fn new(hir: &'hir HirProgram) -> (r: Monomorphizer<'hir>)
        ensures
            r.inv(),
            r.hir == hir,
            r.keys@.len() == 0,
            r.remap@.len() == 0,
            r.struct_remap@.len() == 0,
    {
        let r = Monomorphizer {
            hir,
            counters: Vec::new(),
            remap: CallRemap::new(),
            new_functions: Vec::new(),
            new_symbols: SymbolInterner::default(),
            struct_remap: Vec::new(),
            new_structs: Vec::new(),
            keys: Ghost(Seq::empty()),
            names: Ghost(Seq::empty()),
        };
        proof {
            assert(distinct_strings(r.new_symbols@));
        }
        r
    }

    /// Give the next copy of `key` its name, `base$n` with `n` the number
    /// of earlier copies of `key`, and intern it among the copies' names.
    fn name_copy(&mut self, key: DefId, base: &str) -> (r: SymbolId)
        requires
            old(self).inv(),
            count_key(old(self).keys@, key) < u32::MAX,
            old(self).names@.len() < u32::MAX,
        ensures
            final(self).hir == old(self).hir,
            final(self).remap == old(self).remap,
            final(self).new_functions == old(self).new_functions,
            final(self).struct_remap == old(self).struct_remap,
            final(self).new_structs == old(self).new_structs,
            counters_ok(final(self).counters@, final(self).keys@),
            final(self).new_symbols.wf(),
            final(self).new_symbols@ == intern_all(Seq::empty(), final(self).names@),
            final(self).keys@ == old(self).keys@.push(key),
            final(self).names@ == old(self).names@.push(monomorphized_name_spec(base@, count_key(old(self).keys@, key) as u32)),
            r.0 == name_id(final(self).names@, old(self).names@.len() as int),
    {
        let suffix = next_suffix(&mut self.counters, key, Ghost(self.keys@));
        let text = copy_name(base, suffix);
        proof {
            lemma_intern_all_len(Seq::empty(), self.names@);
        }
        let id = self.new_symbols.intern(text.as_str());
        let ghost old_names = self.names@;
        self.keys = Ghost(self.keys@.push(key));
        self.names = Ghost(self.names@.push(text@));
        proof {
            assert(self.names@.drop_last() == old_names);
            assert(self.names@.take(old_names.len() as int) == old_names);
        }
        id
    }

    /// Build the copy of generic function `callee` for `inst`'s type
    /// arguments: substituted parameters, return type and body, the id after
    /// every function built so far, and a fresh name.
    fn build_instantiation(&mut self, callee: DefId, inst: &Instantiation)
        requires
            old(self).inv(),
            callee.0 < old(self).hir.functions@.len(),
            count_key(old(self).keys@, callee) < u32::MAX,
            old(self).names@.len() < u32::MAX,
        ensures
            final(self).inv(),
            final(self).hir == old(self).hir,
            final(self).new_structs == old(self).new_structs,
            final(self).struct_remap == old(self).struct_remap,
            final(self).keys@ == old(self).keys@.push(callee),
            final(self).names@ == old(self).names@.push(
                monomorphized_name_spec(
                    base_name(old(self).hir.symbols@, old(self).hir.functions@[callee.0 as int].name),
                    count_key(old(self).keys@, callee) as u32,
                ),
            ),
            final(self).new_functions@.len() == old(self).new_functions@.len() + 1,
            forall|i: int| 0 <= i < old(self).new_functions@.len() ==> final(self).new_functions@[i] == old(self).new_functions@[i],
            instantiated_fn(
                *old(self).hir,
                callee,
                models_of(inst.args@),
                DefId((old(self).hir.functions@.len() + old(self).new_functions@.len()) as u32),
                final(self).new_functions@.last(),
            ),
            final(self).new_functions@.last().name.0 == name_id(final(self).names@, old(self).names@.len() as int),
            final(self).remap@ == old(self).remap@.push((callee, models_of(inst.args@), final(self).new_functions@.last().def_id)),
    {
        let hir = self.hir;
        let f = &hir.functions[callee.0 as usize];
        let subst = build_substitution(&f.generic_params, &inst.args);
        let base = match hir.symbols.lookup(f.name) {
            Some(t) => t,
            None => "anon",
        };
        let name = self.name_copy(callee, base);
        let def_id = DefId(((hir.functions.len() as u128) + (self.new_functions.len() as u128)) as u32);
        let mut params: Vec<(SymbolId, HirType)> = Vec::new();
        let mut k: usize = 0;
        while k < f.params.len()
            invariant
                k <= f.params@.len(),
                params@.len() == k,
                forall|j: int| 0 <= j < k ==> (#[trigger] params@[j]).0 == f.params@[j].0 && model_of(params@[j].1)
                    == ty_substitute(model_of(f.params@[j].1), subst@),
            decreases f.params@.len() - k,
        {
            let t = substitute_type(&f.params[k].1, &subst);
            params.push((f.params[k].0, t));
            k = k + 1;
        }
        let return_type = substitute_type(&f.return_type, &subst);
        let body = substitute_stmts(&f.body, &subst);
        let g = HirFunction {
            def_id,
            name,
            generic_params: Vec::new(),
            params,
            return_type,
            body,
            span: f.span,
            module: f.module,
            visibility: f.visibility,
        };
        self.remap.insert(callee, clone_types(&inst.args), def_id);
        self.new_functions.push(g);
    }

    /// Build the copy of generic struct `original` for `inst`'s type
    /// arguments: substituted field types, the id after every struct of the
    /// program and every copy built so far, and a fresh name.
    fn build_struct_instantiation(&mut self, original: DefId, inst: &StructInstantiation)
        requires
            old(self).inv(),
            original.0 < old(self).hir.structs@.len(),
            count_key(old(self).keys@, original) < u32::MAX,
            old(self).names@.len() < u32::MAX,
        ensures
            final(self).inv(),
            final(self).hir == old(self).hir,
            final(self).new_functions == old(self).new_functions,
            final(self).remap == old(self).remap,
            final(self).keys@ == old(self).keys@.push(original),
            final(self).names@ == old(self).names@.push(
                monomorphized_name_spec(
                    base_name(old(self).hir.symbols@, old(self).hir.structs@[original.0 as int].name),
                    count_key(old(self).keys@, original) as u32,
                ),
            ),
            final(self).new_structs@.len() == old(self).new_structs@.len() + 1,
            forall|i: int| 0 <= i < old(self).new_structs@.len() ==> final(self).new_structs@[i] == old(self).new_structs@[i],
            instantiated_struct(
                *old(self).hir,
                original,
                models_of(inst.args@),
                DefId((old(self).hir.structs@.len() + old(self).new_structs@.len()) as u32),
                final(self).new_structs@.last(),
            ),
            final(self).new_structs@.last().name.0 == name_id(final(self).names@, old(self).names@.len() as int),
            final(self).struct_remap@.len() == old(self).struct_remap@.len() + 1,
            forall|i: int| 0 <= i < old(self).struct_remap@.len() ==> final(self).struct_remap@[i] == old(self).struct_remap@[i],
            final(self).struct_remap@.last().0 == original,
            models_of(final(self).struct_remap@.last().1@) == models_of(inst.args@),
            final(self).struct_remap@.last().2 == final(self).new_structs@.last().def_id,
    {
        let hir = self.hir;
        let d = &hir.structs[original.0 as usize];
        let subst = build_substitution(&d.generic_params, &inst.args);
        let base = match hir.symbols.lookup(d.name) {
            Some(t) => t,
            None => "anon",
        };
        let name = self.name_copy(original, base);
        let def_id = DefId(((hir.structs.len() as u128) + (self.new_structs.len() as u128)) as u32);
        let mut fields: Vec<(SymbolId, HirType)> = Vec::new();
        let mut k: usize = 0;
        while k < d.fields.len()
            invariant
                k <= d.fields@.len(),
                fields@.len() == k,
                forall|j: int| 0 <= j < k ==> (#[trigger] fields@[j]).0 == d.fields@[j].0 && model_of(fields@[j].1)
                    == ty_substitute(model_of(d.fields@[j].1), subst@),
            decreases d.fields@.len() - k,
        {
            let t = substitute_type(&d.fields[k].1, &subst);
            fields.push((d.fields[k].0, t));
            k = k + 1;
        }
        let sd = StructDef {
            def_id,
            name,
            generic_params: Vec::new(),
            fields,
            span: d.span,
            module: d.module,
            visibility: d.visibility,
        };
        self.struct_remap.push((original, clone_types(&inst.args), def_id));
        self.new_structs.push(sd);
    }
}

/// Lower one function, whose calls may go to any function of `hir` or to
/// the function itself: it succeeds exactly when its check does, and what
/// it gives passes every MIR check.
pub fn lower_one_function(hir: &HirProgram, func: &HirFunction) -> (r: Result<MirFunction, CompilerError>)
    requires
        hir.symbols@.contains(""@) || hir.symbols@.len() < u32::MAX,
        function_cost(*func) <= u32::MAX,
    ensures
        r is Ok <==> check_function(hir.enums@, *func) is Ok,
        r matches Err(e) ==> reported_by(hir.symbols@, check_function(hir.enums@, *func), e),
        r matches Ok(mf) ==> {
            &&& mf.def_id == func.def_id
            &&& mf.name == func.name
            &&& same_signature(mf, *func)
            &&& straight_body(func.body@) ==> straight_lowered(hir.enums@, *func, mf)
            &&& forall|name: Seq<char>| #[trigger] function_errors(name, mf) == Seq::<ErrorView>::empty()
            &&& switches_test_true(mf)
        },
{
    let mut sigs: Vec<(DefId, HirType)> = Vec::new();
    let mut i: usize = 0;
    while i < hir.functions.len()
        invariant
            i <= hir.functions@.len(),
        decreases hir.functions@.len() - i,
    {
        let f = &hir.functions[i];
        sigs.push((f.def_id, f.return_type.clone()));
        i = i + 1;
    }
    sigs.push((func.def_id, func.return_type.clone()));
    let mut lower = MirLower::new(hir, func, sigs.as_slice());
    lower.lower_function()
}

/// The name of the first struct of `structs` with the given id.
pub open spec fn name_by_id(structs: Seq<StructDef>, id: DefId) -> Option<SymbolId>
    decreases structs.len(),
{
    if structs.len() == 0 {
        None
    } else if structs[0].def_id == id {
        Some(structs[0].name)
    } else {
        name_by_id(structs.skip(1), id)
    }
}

#[verifier::opaque]
/// The struct remap by names: each entry (original, arguments, copy) whose
/// original and copy are both found, by name, in order.
pub open spec fn symbol_remap(hs: Seq<StructDef>, ns: Seq<StructDef>, entries: Seq<(DefId, Seq<Ty>, DefId)>) -> Seq<
    (SymbolId, Seq<Ty>, SymbolId),
>
    decreases entries.len(),
{
    if entries.len() == 0 {
        Seq::empty()
    } else {
        let rest = symbol_remap(hs, ns, entries.drop_last());
        let e = entries.last();
        match (name_by_id(hs, e.0), name_by_id(ns, e.2)) {
            (Some(o), Some(n)) => rest.push((o, e.1, n)),
            _ => rest,
        }
    }
}

proof fn lemma_symbol_remap_step(hs: Seq<StructDef>, ns: Seq<StructDef>, es: Seq<(DefId, Seq<Ty>, DefId)>, i: int)
    requires
        0 <= i < es.len(),
    ensures
        symbol_remap(hs, ns, es.take(i + 1)) == match (name_by_id(hs, es[i].0), name_by_id(ns, es[i].2)) {
            (Some(o), Some(n)) => symbol_remap(hs, ns, es.take(i)).push((o, es[i].1, n)),
            _ => symbol_remap(hs, ns, es.take(i)),
        },
{
    reveal(symbol_remap);
    assert(es.take(i + 1).drop_last() == es.take(i));
    assert(es.take(i + 1).last() == es[i]);
}

/// The first struct with the given id.
fn find_by_id(structs: &Vec<StructDef>, id: DefId) -> (r: Option<SymbolId>)
    ensures
        r == name_by_id(structs@, id),
{
    let mut i: usize = 0;
    assert(structs@.skip(0) == structs@);
    while i < structs.len()
        invariant
            i <= structs@.len(),
            name_by_id(structs@, id) == name_by_id(structs@.skip(i as int), id),
        decreases structs@.len() - i,
    {
        assert(structs@.skip(i as int)[0] == structs@[i as int]);
        if structs[i].def_id == id {
            return Some(structs[i].name);
        }
        assert(structs@.skip(i as int).skip(1) == structs@.skip(i + 1));
        i = i + 1;
    }
    None
}

impl<'hir> Monomorphizer<'hir> {
    /// The struct remap keyed by names, for rewriting struct literals.
    pub open spec fn struct_entries(&self) -> Seq<(DefId, Seq<Ty>, DefId)> {
        self.struct_remap@.map_values(|e: (DefId, Vec<HirType>, DefId)| (e.0, models_of(e.1@), e.2))
    }

    fn struct_symbol_remap(&self) -> (r: StructRemap)
        ensures
            r@ == symbol_remap(self.hir.structs@, self.new_structs@, self.struct_entries()),
    {
        let mut out = StructRemap::new();
        let ghost es = self.struct_entries();
        let ghost hs = self.hir.structs@;
        let ghost ns = self.new_structs@;
        let mut i: usize = 0;
        proof {
            reveal(symbol_remap);
            assert(es.take(0) =~= Seq::<(DefId, Seq<Ty>, DefId)>::empty());
        }
        while i < self.struct_remap.len()
            invariant
                i <= self.struct_remap@.len(),
                es == self.struct_entries(),
                hs == self.hir.structs@,
                ns == self.new_structs@,
                out@ == symbol_remap(hs, ns, es.take(i as int)),
            decreases self.struct_remap@.len() - i,
        {
            let e = &self.struct_remap[i];
            let o = find_by_id(&self.hir.structs, e.0);
            let n = find_by_id(&self.new_structs, e.2);
            proof {
                lemma_symbol_remap_step(hs, ns, es, i as int);
                assert(es[i as int] == (e.0, models_of(e.1@), e.2));
            }
            match (o, n) {
                (Some(o), Some(n)) => {
                    out.insert(o, clone_types(&e.1), n);
                },
                _ => {},
            }
            i = i + 1;
        }
        assert(es.take(es.len() as int) == es);
        out
    }

}

/// The definitions numbered while building copies, in order: each function
/// copy's generic function, then each struct copy's generic struct, twice
/// (the struct copies are built in two rounds).
pub open spec fn build_keys(c: Collected) -> Seq<DefId> {
    let fk = flatten(c.calls).map_values(|x: (DefId, Seq<Ty>)| x.0);
    let sk = flatten(c.structs).map_values(|x: (DefId, Seq<Ty>)| x.0);
    fk + sk + sk
}

/// The names given to copies numbered `keys`, the first `nf` of them
/// function copies: the generic definition's name (or `anon`), `$`, and
/// how often its definition was numbered before.
pub open spec fn names_for(p: HirProgram, keys: Seq<DefId>, nf: int) -> Seq<Seq<char>> {
    Seq::new(
        keys.len(),
        |i: int|
            monomorphized_name_spec(
                if i < nf {
                    base_name(p.symbols@, p.functions@[keys[i].0 as int].name)
                } else {
                    base_name(p.symbols@, p.structs@[keys[i].0 as int].name)
                },
                count_key(keys.take(i), keys[i]) as u32,
            ),
    )
}

/// The names of all copies built for the collection `c`.
pub open spec fn copy_names(p: HirProgram, c: Collected) -> Seq<Seq<char>> {
    names_for(p, build_keys(c), flatten(c.calls).len() as int)
}

/// Room for the copies' ids: the program's symbols and every copy's name
/// fit below `u32::MAX`.
pub open spec fn copies_fit(p: HirProgram, c: Collected) -> bool {
    p.symbols@.len() + flatten(c.calls).len() + 2 * flatten(c.structs).len() < u32::MAX
}

/// The functions in the order they are lowered, as far as lowering can
/// tell: the program's own (with calls retargeted), then for each function
/// copy the generic function it was made from (with types substituted).
pub open spec fn lowering_order(p: HirProgram, c: Collected) -> Seq<HirFunction> {
    p.functions@ + flatten(c.calls).map_values(|x: (DefId, Seq<Ty>)| p.functions@[x.0.0 as int])
}

proof fn lemma_flatten_step(g: Groups, i: int)
    requires
        0 <= i < g.len(),
    ensures
        flatten(g.take(i + 1)) == flatten(g.take(i)) + g[i].1.map_values(|v: Seq<Ty>| (g[i].0, v)),
{
    assert(g.take(i + 1).drop_last() == g.take(i));
    assert(g.take(i + 1).last() == g[i]);
}

/// The function instantiations of a collection, flattened in build order.
fn flat_calls(col: &Collector) -> (r: Vec<Instantiation>)
    requires
        col.wf(),
    ensures
        r@.map_values(|x: Instantiation| (x.callee, models_of(x.args@))) == flatten(col.collected().calls),
        forall|k: int| 0 <= k < r@.len() ==> (#[trigger] r@[k]).callee.0 < col.hir.functions@.len(),
{
    let ghost g = col.collected().calls;
    let mut out: Vec<Instantiation> = Vec::new();
    let mut i: usize = 0;
    assert(g.take(0) =~= Seq::<(DefId, Seq<Seq<Ty>>)>::empty());
    while i < col.calls.len()
        invariant
            i <= col.calls@.len(),
            g == col.collected().calls,
            col.wf(),
            out@.map_values(|x: Instantiation| (x.callee, models_of(x.args@))) == flatten(g.take(i as int)),
            forall|k: int| 0 <= k < out@.len() ==> (#[trigger] out@[k]).callee.0 < col.hir.functions@.len(),
        decreases col.calls@.len() - i,
    {
        let group = &col.calls[i].1;
        let ghost base = flatten(g.take(i as int));
        let ghost gi = g[i as int];
        let mut j: usize = 0;
        proof {
            assert(gi.1 == inst_models(group@));
            assert(gi.1.take(0).map_values(|v: Seq<Ty>| (gi.0, v)) =~= Seq::<(DefId, Seq<Ty>)>::empty());
            assert(base + Seq::<(DefId, Seq<Ty>)>::empty() == base);
        }
        while j < group.len()
            invariant
                j <= group@.len(),
                i < col.calls@.len(),
                group == &col.calls@[i as int].1,
                g == col.collected().calls,
                col.wf(),
                gi == g[i as int],
                base == flatten(g.take(i as int)),
                out@.map_values(|x: Instantiation| (x.callee, models_of(x.args@))) == base + gi.1.take(j as int).map_values(
                    |v: Seq<Ty>| (gi.0, v),
                ),
                forall|k: int| 0 <= k < out@.len() ==> (#[trigger] out@[k]).callee.0 < col.hir.functions@.len(),
            decreases group@.len() - j,
        {
            let inst = &group[j];
            let copy = Instantiation { callee: inst.callee, args: clone_types(&inst.args) };
            proof {
                assert(col.calls@[i as int].1@[j as int].callee == col.calls@[i as int].0);
                assert(gi.1[j as int] == models_of(inst.args@));
                assert(gi.1.take(j + 1) == gi.1.take(j as int).push(gi.1[j as int]));
            }
            let ghost before = out@;
            out.push(copy);
            proof {
                assert(out@.map_values(|x: Instantiation| (x.callee, models_of(x.args@))) =~= before.map_values(
                    |x: Instantiation| (x.callee, models_of(x.args@)),
                ).push((gi.0, gi.1[j as int])));
                assert(gi.1.take(j + 1).map_values(|v: Seq<Ty>| (gi.0, v)) =~= gi.1.take(j as int).map_values(
                    |v: Seq<Ty>| (gi.0, v),
                ).push((gi.0, gi.1[j as int])));
            }
            j = j + 1;
        }
        proof {
            assert(gi.1.take(group@.len() as int) == gi.1);
            lemma_flatten_step(g, i as int);
        }
        i = i + 1;
    }
    assert(g.take(g.len() as int) == g);
    out
}

/// The struct instantiations of a collection, flattened in build order.
fn flat_structs(col: &Collector) -> (r: Vec<StructInstantiation>)
    requires
        col.wf(),
    ensures
        r@.map_values(|x: StructInstantiation| (x.original, models_of(x.args@))) == flatten(col.collected().structs),
        forall|k: int| 0 <= k < r@.len() ==> (#[trigger] r@[k]).original.0 < col.hir.structs@.len(),
{
    let ghost g = col.collected().structs;
    let mut out: Vec<StructInstantiation> = Vec::new();
    let mut i: usize = 0;
    assert(g.take(0) =~= Seq::<(DefId, Seq<Seq<Ty>>)>::empty());
    while i < col.structs.len()
        invariant
            i <= col.structs@.len(),
            g == col.collected().structs,
            col.wf(),
            out@.map_values(|x: StructInstantiation| (x.original, models_of(x.args@))) == flatten(g.take(i as int)),
            forall|k: int| 0 <= k < out@.len() ==> (#[trigger] out@[k]).original.0 < col.hir.structs@.len(),
        decreases col.structs@.len() - i,
    {
        let group = &col.structs[i].1;
        let ghost base = flatten(g.take(i as int));
        let ghost gi = g[i as int];
        let mut j: usize = 0;
        proof {
            assert(gi.1 == struct_inst_models(group@));
            assert(gi.1.take(0).map_values(|v: Seq<Ty>| (gi.0, v)) =~= Seq::<(DefId, Seq<Ty>)>::empty());
            assert(base + Seq::<(DefId, Seq<Ty>)>::empty() == base);
        }
        while j < group.len()
            invariant
                j <= group@.len(),
                i < col.structs@.len(),
                group == &col.structs@[i as int].1,
                g == col.collected().structs,
                col.wf(),
                gi == g[i as int],
                base == flatten(g.take(i as int)),
                out@.map_values(|x: StructInstantiation| (x.original, models_of(x.args@))) == base + gi.1.take(j as int).map_values(
                    |v: Seq<Ty>| (gi.0, v),
                ),
                forall|k: int| 0 <= k < out@.len() ==> (#[trigger] out@[k]).original.0 < col.hir.structs@.len(),
            decreases group@.len() - j,
        {
            let inst = &group[j];
            let copy = StructInstantiation { original: inst.original, args: clone_types(&inst.args) };
            proof {
                assert(col.structs@[i as int].1@[j as int].original == col.structs@[i as int].0);
                assert(gi.1[j as int] == models_of(inst.args@));
                assert(gi.1.take(j + 1) == gi.1.take(j as int).push(gi.1[j as int]));
            }
            let ghost before = out@;
            out.push(copy);
            proof {
                assert(out@.map_values(|x: StructInstantiation| (x.original, models_of(x.args@))) =~= before.map_values(
                    |x: StructInstantiation| (x.original, models_of(x.args@)),
                ).push((gi.0, gi.1[j as int])));
                assert(gi.1.take(j + 1).map_values(|v: Seq<Ty>| (gi.0, v)) =~= gi.1.take(j as int).map_values(
                    |v: Seq<Ty>| (gi.0, v),
                ).push((gi.0, gi.1[j as int])));
            }
            j = j + 1;
        }
        proof {
            assert(gi.1.take(group@.len() as int) == gi.1);
            lemma_flatten_step(g, i as int);
        }
        i = i + 1;
    }
    assert(g.take(g.len() as int) == g);
    out
}

proof fn lemma_count_le(keys: Seq<DefId>, k: DefId)
    ensures
        count_key(keys, k) <= keys.len(),
    decreases keys.len(),
{
    if keys.len() > 0 {
        lemma_count_le(keys.drop_last(), k);
    }
}

proof fn lemma_names_for_push(p: HirProgram, keys: Seq<DefId>, nf: int, x: DefId)
    ensures
        names_for(p, keys.push(x), nf) == names_for(p, keys, nf).push(
            monomorphized_name_spec(
                if keys.len() < nf {
                    base_name(p.symbols@, p.functions@[x.0 as int].name)
                } else {
                    base_name(p.symbols@, p.structs@[x.0 as int].name)
                },
                count_key(keys, x) as u32,
            ),
        ),
{
    let a = names_for(p, keys.push(x), nf);
    let b = names_for(p, keys, nf);
    assert forall|i: int| 0 <= i < keys.len() implies a[i] == b[i] by {
        assert(keys.push(x).take(i) == keys.take(i));
    }
    assert(keys.push(x).take(keys.len() as int) == keys);
    assert(a =~= b.push(a[keys.len() as int]));
}

proof fn lemma_name_id_prefix(a: Seq<Seq<char>>, b: Seq<Seq<char>>, k: int)
    requires
        0 <= k < a.len(),
        a.len() <= b.len(),
        b.take(a.len() as int) == a,
    ensures
        name_id(b, k) == name_id(a, k),
{
    assert(b.take(k) == a.take(k));
    assert(b[k] == b.take(a.len() as int)[k]);
}

proof fn lemma_name_id_stable(names: Seq<Seq<char>>, x: Seq<char>, i: int)
    requires
        0 <= i < names.len(),
    ensures
        name_id(names.push(x), i) == name_id(names, i),
{
    assert(names.push(x).take(i) == names.take(i));
}

/// A function copy keeps the check and the cost of the generic function it
/// was made from.
proof fn lemma_copy_keeps_check(p: HirProgram, callee: DefId, args: Seq<Ty>, def_id: DefId, g: HirFunction)
    requires
        callee.0 < p.functions@.len(),
        instantiated_fn(p, callee, args, def_id, g),
    ensures
        check_function(p.enums@, g) == check_function(p.enums@, p.functions@[callee.0 as int]),
        function_cost(g) == function_cost(p.functions@[callee.0 as int]),
{
    let f = p.functions@[callee.0 as int];
    let m = param_map(f.generic_params@, args);
    assert(param_names(g.params@) =~= param_names(f.params@)) by {
        assert forall|s: SymbolId| param_names(f.params@).contains(s) implies param_names(g.params@).contains(s) by {
            let k = choose|k: int| 0 <= k < f.params@.len() && (#[trigger] f.params@[k]).0 == s;
            assert(g.params@[k].0 == s);
        }
        assert forall|s: SymbolId| param_names(g.params@).contains(s) implies param_names(f.params@).contains(s) by {
            let k = choose|k: int| 0 <= k < g.params@.len() && (#[trigger] g.params@[k]).0 == s;
            assert(f.params@[k].0 == s);
        }
    }
    lemma_subst_stmts(p.enums@, f.body@, g.body@, m, param_names(f.params@));
}

/// What is known of the `k`-th function copy, made from `callee`.
pub open spec fn built_fn_ok(p: HirProgram, k: int, callee: DefId, args: Seq<Ty>, names: Seq<Seq<char>>, g: HirFunction) -> bool {
    &&& g.def_id == DefId((p.functions@.len() + k) as u32)
    &&& instantiated_fn(p, callee, args, DefId((p.functions@.len() + k) as u32), g)
    &&& g.name.0 == name_id(names, k)
    &&& check_function(p.enums@, g) == check_function(p.enums@, p.functions@[callee.0 as int])
    &&& function_cost(g) == function_cost(p.functions@[callee.0 as int])
}

/// What is known of the `j`-th struct copy, made from `inst`.
pub open spec fn built_struct_ok(p: HirProgram, j: int, nf: int, inst: (DefId, Seq<Ty>), names: Seq<Seq<char>>, s: StructDef) -> bool {
    &&& instantiated_struct(p, inst.0, inst.1, DefId((p.structs@.len() + j) as u32), s)
    &&& s.name.0 == name_id(names, nf + j)
}

/// The struct instantiations as the copies are built: all of them, twice.
pub open spec fn struct_round(sv: Seq<(DefId, Seq<Ty>)>, j: int) -> (DefId, Seq<Ty>) {
    if j < sv.len() {
        sv[j]
    } else {
        sv[j - sv.len()]
    }
}

impl<'hir> Monomorphizer<'hir> {
    /// Build the copy of every function instantiation, in order.
    fn build_functions(&mut self, fl: &Vec<Instantiation>)
        requires
            old(self).inv(),
            old(self).keys@.len() == 0,
            old(self).new_structs@.len() == 0,
            forall|k: int| 0 <= k < fl@.len() ==> (#[trigger] fl@[k]).callee.0 < old(self).hir.functions@.len(),
            fl@.len() < u32::MAX,
        ensures
            final(self).inv(),
            final(self).hir == old(self).hir,
            final(self).keys@ == fl@.map_values(|x: Instantiation| x.callee),
            final(self).names@ == names_for(*final(self).hir, final(self).keys@, fl@.len() as int),
            final(self).new_functions@.len() == fl@.len(),
            final(self).new_structs@.len() == 0,
            forall|k: int| 0 <= k < fl@.len() ==> built_fn_ok(*final(self).hir, k, fl@[k].callee, models_of(fl@[k].args@), final(self).names@, #[trigger] final(self).new_functions@[k]),
    {
        let ghost hir = *self.hir;
        let ghost fk = fl@.map_values(|x: Instantiation| x.callee);
        let ghost nf = fl@.len() as int;
        let mut k: usize = 0;
        assert(fk.take(0) =~= Seq::<DefId>::empty());
        assert(self.keys@ =~= fk.take(0));
        assert(self.names@ =~= names_for(hir, self.keys@, nf));
        while k < fl.len()
            invariant
                k <= fl@.len(),
                self.inv(),
                *self.hir == hir,
                fk == fl@.map_values(|x: Instantiation| x.callee),
                nf == fl@.len(),
                forall|k: int| 0 <= k < fl@.len() ==> (#[trigger] fl@[k]).callee.0 < hir.functions@.len(),
                fl@.len() < u32::MAX,
                self.keys@ == fk.take(k as int),
                self.names@ == names_for(hir, self.keys@, nf),
                self.new_functions@.len() == k,
                self.new_structs@.len() == 0,
                forall|j: int| 0 <= j < k ==> built_fn_ok(hir, j, fl@[j].callee, models_of(fl@[j].args@), self.names@, #[trigger] self.new_functions@[j]),
            decreases fl@.len() - k,
        {
            let ghost old_names = self.names@;
            let ghost old_fns = self.new_functions@;
            proof {
                lemma_count_le(self.keys@, fl@[k as int].callee);
            }
            self.build_instantiation(fl[k].callee, &fl[k]);
            proof {
                lemma_copy_keeps_check(
                    hir,
                    fl@[k as int].callee,
                    models_of(fl@[k as int].args@),
                    DefId((hir.functions@.len() + k) as u32),
                    self.new_functions@[k as int],
                );
                lemma_names_for_push(hir, fk.take(k as int), nf, fl@[k as int].callee);
                assert(fk.take(k + 1) == fk.take(k as int).push(fl@[k as int].callee));
                assert(self.names@ == old_names.push(self.names@.last()));
                assert forall|j: int| 0 <= j < k + 1 implies built_fn_ok(hir, j, fl@[j].callee, models_of(fl@[j].args@), self.names@, #[trigger] self.new_functions@[j]) by {
                    if j < k {
                        lemma_name_id_stable(old_names, self.names@.last(), j);
                        assert(self.new_functions@[j] == old_fns[j]);
                    }
                }
            }
            k = k + 1;
        }
        assert(fk.take(nf) == fk);
    }

    /// Build the copy of every struct instantiation, in order, after `nf`
    /// function copies and `base` struct copies.
    fn build_struct_round(&mut self, sl: &Vec<StructInstantiation>, Ghost(nf): Ghost<int>, Ghost(base): Ghost<int>)
        requires
            old(self).inv(),
            old(self).new_functions@.len() == nf,
            old(self).new_structs@.len() == base,
            old(self).keys@.len() == nf + base,
            old(self).names@ == names_for(*old(self).hir, old(self).keys@, nf),
            forall|k: int| 0 <= k < sl@.len() ==> (#[trigger] sl@[k]).original.0 < old(self).hir.structs@.len(),
            nf + base + sl@.len() < u32::MAX,
        ensures
            final(self).inv(),
            final(self).hir == old(self).hir,
            final(self).keys@ == old(self).keys@ + sl@.map_values(|x: StructInstantiation| x.original),
            final(self).names@ == names_for(*final(self).hir, final(self).keys@, nf),
            final(self).names@.take(old(self).names@.len() as int) == old(self).names@,
            final(self).new_functions == old(self).new_functions,
            final(self).new_structs@.len() == base + sl@.len(),
            forall|i: int| 0 <= i < base ==> final(self).new_structs@[i] == old(self).new_structs@[i],
            forall|i: int| base <= i < base + sl@.len() ==> built_struct_ok(
                *final(self).hir,
                i,
                nf,
                (sl@[i - base].original, models_of(sl@[i - base].args@)),
                final(self).names@,
                #[trigger] final(self).new_structs@[i],
            ),
    {
        let ghost hir = *self.hir;
        let ghost sk = sl@.map_values(|x: StructInstantiation| x.original);
        let ghost pre = self.keys@;
        let ghost names0 = self.names@;
        let ghost structs0 = self.new_structs@;
        let mut j: usize = 0;
        assert(sk.take(0) =~= Seq::<DefId>::empty());
        assert(pre + sk.take(0) == pre);
        assert(names0.take(names0.len() as int) == names0);
        while j < sl.len()
            invariant
                j <= sl@.len(),
                self.inv(),
                *self.hir == hir,
                sk == sl@.map_values(|x: StructInstantiation| x.original),
                0 <= nf,
                0 <= base,
                pre.len() == nf + base,
                names0.len() == nf + base,
                forall|k: int| 0 <= k < sl@.len() ==> (#[trigger] sl@[k]).original.0 < hir.structs@.len(),
                nf + base + sl@.len() < u32::MAX,
                self.keys@ == pre + sk.take(j as int),
                self.names@ == names_for(hir, self.keys@, nf),
                self.names@.take(names0.len() as int) == names0,
                self.new_functions == old(self).new_functions,
                self.new_functions@.len() == nf,
                self.new_structs@.len() == base + j,
                forall|i: int| 0 <= i < base ==> self.new_structs@[i] == structs0[i],
                forall|i: int| base <= i < base + j ==> built_struct_ok(
                    hir,
                    i,
                    nf,
                    (sl@[i - base].original, models_of(sl@[i - base].args@)),
                    self.names@,
                    #[trigger] self.new_structs@[i],
                ),
            decreases sl@.len() - j,
        {
            let ghost old_names = self.names@;
            let ghost old_structs = self.new_structs@;
            proof {
                lemma_count_le(self.keys@, sl@[j as int].original);
            }
            self.build_struct_instantiation(sl[j].original, &sl[j]);
            proof {
                assert(forall|i: int| 0 <= i < base + j ==> self.new_structs@[i] == old_structs[i]);
                lemma_names_for_push(hir, pre + sk.take(j as int), nf, sl@[j as int].original);
                assert(pre + sk.take(j + 1) == (pre + sk.take(j as int)).push(sl@[j as int].original));
                assert(self.names@ == old_names.push(self.names@.last()));
                assert(self.names@.take(names0.len() as int) == old_names.take(names0.len() as int));
                assert forall|i: int| base <= i < base + j + 1 implies built_struct_ok(
                    hir,
                    i,
                    nf,
                    (sl@[i - base].original, models_of(sl@[i - base].args@)),
                    self.names@,
                    #[trigger] self.new_structs@[i],
                ) by {
                    if i < base + j {
                        lemma_name_id_stable(old_names, self.names@.last(), nf + i);
                        assert(self.new_structs@[i] == old_structs[i]);
                        assert(built_struct_ok(hir, i, nf, (sl@[i - base].original, models_of(sl@[i - base].args@)), old_names, old_structs[i]));
                    } else {
                        assert(i == base + j);
                        assert(old_names.len() == nf + base + j);
                        assert(self.new_structs@[i] == self.new_structs@.last());
                    }
                }
            }
            j = j + 1;
        }
        assert(sk.take(sl@.len() as int) == sk);
    }
}

proof fn lemma_spec_intern_at(t: Seq<Seq<char>>, s: Seq<char>)
    ensures
        0 <= spec_intern(t, s).1 < spec_intern(t, s).0.len(),
        spec_intern(t, s).0[spec_intern(t, s).1] == s,
        spec_intern(t, s).0.len() >= t.len(),
        forall|j: int| 0 <= j < t.len() ==> spec_intern(t, s).0[j] == t[j],
{
}

proof fn lemma_intern_all_prefix(t: Seq<Seq<char>>, names: Seq<Seq<char>>, k: int)
    requires
        0 <= k <= names.len(),
    ensures
        intern_all(t, names.take(k)).len() <= intern_all(t, names).len(),
        forall|j: int| 0 <= j < intern_all(t, names.take(k)).len() ==> intern_all(t, names)[j] == intern_all(t, names.take(k))[j],
    decreases names.len(),
{
    if k == names.len() {
        assert(names.take(k) == names);
    } else {
        assert(names.drop_last().take(k) == names.take(k));
        lemma_intern_all_prefix(t, names.drop_last(), k);
        lemma_spec_intern_at(intern_all(t, names.drop_last()), names.last());
    }
}

/// The `k`-th name sits at its id in the table of all names.
proof fn lemma_name_id_at(names: Seq<Seq<char>>, k: int)
    requires
        0 <= k < names.len(),
    ensures
        0 <= name_id(names, k) < intern_all(Seq::empty(), names).len(),
        intern_all(Seq::empty(), names)[name_id(names, k)] == names[k],
{
    let t = intern_all(Seq::<Seq<char>>::empty(), names.take(k));
    assert(names.take(k + 1).drop_last() == names.take(k));
    assert(names.take(k + 1).last() == names[k]);
    lemma_spec_intern_at(t, names[k]);
    lemma_intern_all_prefix(Seq::empty(), names, k + 1);
}

impl<'hir> Monomorphizer<'hir> {
    /// The program's symbols with each function copy's name interned, in
    /// order.
    fn merged_symbols(&self) -> (r: SymbolInterner)
        requires
            self.inv(),
            self.hir.symbols.wf(),
            self.hir.symbols@.len() + self.new_functions@.len() < u32::MAX,
            forall|k: int| 0 <= k < self.new_functions@.len() ==> (#[trigger] self.new_functions@[k]).name.0 == name_id(self.names@, k),
        ensures
            r.wf(),
            r@ == intern_all(self.hir.symbols@, self.names@.take(self.new_functions@.len() as int)),
    {
        let mut symbols = self.hir.symbols.clone();
        let ghost names = self.names@;
        let ghost t0 = self.hir.symbols@;
        let mut k: usize = 0;
        assert(names.take(0) =~= Seq::<Seq<char>>::empty());
        while k < self.new_functions.len()
            invariant
                k <= self.new_functions@.len(),
                self.inv(),
                names == self.names@,
                t0 == self.hir.symbols@,
                t0.len() + self.new_functions@.len() < u32::MAX,
                forall|k: int| 0 <= k < self.new_functions@.len() ==> (#[trigger] self.new_functions@[k]).name.0 == name_id(names, k),
                symbols.wf(),
                symbols@ == intern_all(t0, names.take(k as int)),
            decreases self.new_functions@.len() - k,
        {
            proof {
                lemma_name_id_at(names, k as int);
                lemma_intern_all_len(t0, names.take(k as int));
            }
            let text = match self.new_symbols.lookup(self.new_functions[k].name) {
                Some(t) => t,
                None => "",
            };
            let _ = symbols.intern(text);
            proof {
                assert(names.take(k + 1).drop_last() == names.take(k as int));
                assert(names.take(k + 1).last() == names[k as int]);
            }
            k = k + 1;
        }
        symbols
    }

    /// Lower the program's own functions, with calls and literals sent to
    /// the copies, then the copies; the first failure stops lowering.
    fn lower_all(&self, fl: &Vec<Instantiation>) -> (r: Result<Vec<MirFunction>, CompilerError>)
        requires
            self.hir.symbols.wf(),
            self.hir.symbols@.len() < u32::MAX,
            forall|i: int| 0 <= i < self.hir.functions@.len() ==> function_cost(#[trigger] self.hir.functions@[i]) <= u32::MAX,
            self.new_functions@.len() == fl@.len(),
            forall|k: int| 0 <= k < fl@.len() ==> (#[trigger] fl@[k]).callee.0 < self.hir.functions@.len(),
            forall|k: int| 0 <= k < fl@.len() ==> built_fn_ok(*self.hir, k, fl@[k].callee, models_of(fl@[k].args@), self.names@, #[trigger] self.new_functions@[k]),
        ensures
            ({
                let order = self.hir.functions@ + fl@.map_values(|x: Instantiation| self.hir.functions@[x.callee.0 as int]);
                &&& (r is Ok <==> forall|i: int| 0 <= i < order.len() ==> (#[trigger] check_function(self.hir.enums@, order[i])) is Ok)
                &&& r matches Err(e) ==> exists|i: int|
                    first_failure(self.hir.enums@, order, i) && reported_by(self.hir.symbols@, check_function(self.hir.enums@, #[trigger] order[i]), e)
                &&& r matches Ok(fs) ==> {
                    &&& fs@.len() == order.len()
                    &&& forall|i: int| 0 <= i < self.hir.functions@.len() ==> (#[trigger] fs@[i]).def_id == self.hir.functions@[i].def_id
                        && fs@[i].name == self.hir.functions@[i].name
                    &&& forall|k: int| 0 <= k < fl@.len() ==> (#[trigger] fs@[self.hir.functions@.len() + k]).def_id
                        == self.new_functions@[k].def_id && fs@[self.hir.functions@.len() + k].name == self.new_functions@[k].name
                    &&& forall|i: int| 0 <= i < self.hir.functions@.len() ==> same_signature(#[trigger] fs@[i], self.hir.functions@[i])
                    &&& forall|i: int| 0 <= i < self.hir.functions@.len() && straight_body(self.hir.functions@[i].body@)
                        ==> straight_lowered(self.hir.enums@, self.hir.functions@[i], #[trigger] fs@[i])
                    &&& forall|k: int| 0 <= k < fl@.len() ==> same_signature(#[trigger] fs@[self.hir.functions@.len() + k],
                        self.new_functions@[k])
                    &&& forall|k: int| 0 <= k < fl@.len() && straight_body(self.new_functions@[k].body@) ==> straight_lowered(
                        self.hir.enums@, self.new_functions@[k], #[trigger] fs@[self.hir.functions@.len() + k])
                    &&& forall|i: int, name: Seq<char>| 0 <= i < fs@.len() ==> #[trigger] function_errors(name, fs@[i]) == Seq::<ErrorView>::empty()
                    &&& forall|i: int| 0 <= i < fs@.len() ==> switches_test_true(#[trigger] fs@[i])
                }
            }),
    {
        let hir = self.hir;
        let ghost order = hir.functions@ + fl@.map_values(|x: Instantiation| hir.functions@[x.callee.0 as int]);
        let ghost n = hir.functions@.len() as int;
        let sremap = self.struct_symbol_remap();
        let mut out: Vec<MirFunction> = Vec::new();
        let mut i: usize = 0;
        while i < hir.functions.len()
            invariant
                i <= hir.functions@.len(),
                hir == self.hir,
                n == hir.functions@.len(),
                order == hir.functions@ + fl@.map_values(|x: Instantiation| hir.functions@[x.callee.0 as int]),
                hir.symbols.wf(),
                hir.symbols@.len() < u32::MAX,
                forall|i: int| 0 <= i < hir.functions@.len() ==> function_cost(#[trigger] hir.functions@[i]) <= u32::MAX,
                out@.len() == i,
                forall|j: int| 0 <= j < i ==> (#[trigger] check_function(hir.enums@, order[j])) is Ok,
                forall|j: int| 0 <= j < i ==> (#[trigger] out@[j]).def_id == hir.functions@[j].def_id && out@[j].name == hir.functions@[j].name,
                forall|j: int| 0 <= j < i ==> same_signature(#[trigger] out@[j], hir.functions@[j]),
                forall|j: int| 0 <= j < i && straight_body(hir.functions@[j].body@)
                    ==> straight_lowered(hir.enums@, hir.functions@[j], #[trigger] out@[j]),
                forall|j: int, name: Seq<char>| 0 <= j < i ==> #[trigger] function_errors(name, out@[j]) == Seq::<ErrorView>::empty(),
                forall|j: int| 0 <= j < i ==> switches_test_true(#[trigger] out@[j]),
            decreases hir.functions@.len() - i,
        {
            let f = &hir.functions[i];
            let owned = HirFunction {
                def_id: f.def_id,
                name: f.name,
                generic_params: copy_ids(&f.generic_params),
                params: copy_typed(&f.params),
                return_type: f.return_type.clone(),
                body: rewrite_stmts(&f.body, &self.remap, &sremap),
                span: f.span,
                module: f.module,
                visibility: f.visibility,
            };
            proof {
                assert(param_names(owned.params@) =~= param_names(f.params@)) by {
                    assert forall|s: SymbolId| param_names(f.params@).contains(s) implies param_names(owned.params@).contains(s) by {
                        let k = choose|k: int| 0 <= k < f.params@.len() && (#[trigger] f.params@[k]).0 == s;
                        assert(owned.params@[k].0 == s);
                    }
                    assert forall|s: SymbolId| param_names(owned.params@).contains(s) implies param_names(f.params@).contains(s) by {
                        let k = choose|k: int| 0 <= k < owned.params@.len() && (#[trigger] owned.params@[k]).0 == s;
                        assert(f.params@[k].0 == s);
                    }
                }
                lemma_rewrite_stmts(hir.enums@, f.body@, owned.body@, self.remap@, sremap@, param_names(f.params@));
                assert(order[i as int] == *f);
                assert(function_cost(*f) <= u32::MAX);
            }
            match lower_one_function(hir, &owned) {
                Ok(mf) => {
                    let ghost before = out@;
                    out.push(mf);
                    proof {
                        assert forall|j: int, name: Seq<char>| 0 <= j < i + 1 implies #[trigger] function_errors(name, out@[j])
                            == Seq::<ErrorView>::empty() by {
                            if j < i {
                                assert(out@[j] == before[j]);
                            }
                        }
                        assert forall|j: int| 0 <= j < i + 1 implies switches_test_true(#[trigger] out@[j]) by {
                            if j < i {
                                assert(out@[j] == before[j]);
                            }
                        }
                        assert forall|j: int| 0 <= j < i + 1 implies same_signature(#[trigger] out@[j], hir.functions@[j]) by {
                            if j < i {
                                assert(out@[j] == before[j]);
                            } else {
                                assert(same_signature(mf, owned));
                            }
                        }
                        if straight_body(f.body@) {
                            lemma_rewrite_straight_lowered(hir.enums@, *f, owned, self.remap@, sremap@, mf);
                        }
                        assert forall|j: int| 0 <= j < i + 1 && straight_body(hir.functions@[j].body@)
                            implies straight_lowered(hir.enums@, hir.functions@[j], #[trigger] out@[j]) by {
                            if j < i {
                                assert(out@[j] == before[j]);
                            }
                        }
                    }
                },
                Err(e) => {
                    proof {
                        assert(first_failure(hir.enums@, order, i as int));
                    }
                    return Err(e);
                },
            }
            i = i + 1;
        }
        let mut k: usize = 0;
        while k < self.new_functions.len()
            invariant
                k <= fl@.len(),
                hir == self.hir,
                n == hir.functions@.len(),
                order == hir.functions@ + fl@.map_values(|x: Instantiation| hir.functions@[x.callee.0 as int]),
                hir.symbols.wf(),
                hir.symbols@.len() < u32::MAX,
                forall|i: int| 0 <= i < hir.functions@.len() ==> function_cost(#[trigger] hir.functions@[i]) <= u32::MAX,
                self.new_functions@.len() == fl@.len(),
                forall|k: int| 0 <= k < fl@.len() ==> (#[trigger] fl@[k]).callee.0 < hir.functions@.len(),
                forall|k: int| 0 <= k < fl@.len() ==> built_fn_ok(*hir, k, fl@[k].callee, models_of(fl@[k].args@), self.names@, #[trigger] self.new_functions@[k]),
                out@.len() == n + k,
                forall|j: int| 0 <= j < n + k ==> (#[trigger] check_function(hir.enums@, order[j])) is Ok,
                forall|j: int| 0 <= j < n ==> (#[trigger] out@[j]).def_id == hir.functions@[j].def_id && out@[j].name == hir.functions@[j].name,
                forall|j: int| 0 <= j < k ==> (#[trigger] out@[n + j]).def_id == self.new_functions@[j].def_id && out@[n + j].name
                    == self.new_functions@[j].name,
                forall|j: int| 0 <= j < n ==> same_signature(#[trigger] out@[j], hir.functions@[j]),
                forall|j: int| 0 <= j < n && straight_body(hir.functions@[j].body@)
                    ==> straight_lowered(hir.enums@, hir.functions@[j], #[trigger] out@[j]),
                forall|j: int| 0 <= j < k ==> same_signature(#[trigger] out@[n + j], self.new_functions@[j]),
                forall|j: int| 0 <= j < k && straight_body(self.new_functions@[j].body@) ==> straight_lowered(
                    hir.enums@, self.new_functions@[j], #[trigger] out@[n + j]),
                forall|j: int, name: Seq<char>| 0 <= j < n + k ==> #[trigger] function_errors(name, out@[j]) == Seq::<ErrorView>::empty(),
                forall|j: int| 0 <= j < n + k ==> switches_test_true(#[trigger] out@[j]),
            decreases fl@.len() - k,
        {
            let g = &self.new_functions[k];
            proof {
                assert(order[n + k] == hir.functions@[fl@[k as int].callee.0 as int]);
                assert(built_fn_ok(*hir, k as int, fl@[k as int].callee, models_of(fl@[k as int].args@), self.names@, *g));
                assert(function_cost(hir.functions@[fl@[k as int].callee.0 as int]) <= u32::MAX);
            }
            match lower_one_function(hir, g) {
                Ok(mf) => {
                    let ghost before = out@;
                    out.push(mf);
                    proof {
                        assert forall|j: int, name: Seq<char>| 0 <= j < n + k + 1 implies #[trigger] function_errors(name, out@[j])
                            == Seq::<ErrorView>::empty() by {
                            if j < n + k {
                                assert(out@[j] == before[j]);
                            }
                        }
                        assert forall|j: int| 0 <= j < n + k + 1 implies switches_test_true(#[trigger] out@[j]) by {
                            if j < n + k {
                                assert(out@[j] == before[j]);
                            }
                        }
                        assert forall|j: int| 0 <= j < n implies (#[trigger] out@[j]).def_id == hir.functions@[j].def_id && out@[j].name
                            == hir.functions@[j].name by {
                            assert(out@[j] == before[j]);
                        }
                        assert forall|j: int| 0 <= j < k + 1 implies (#[trigger] out@[n + j]).def_id == self.new_functions@[j].def_id
                            && out@[n + j].name == self.new_functions@[j].name by {
                            if j < k {
                                assert(out@[n + j] == before[n + j]);
                            }
                        }
                        assert forall|j: int| 0 <= j < n implies same_signature(#[trigger] out@[j], hir.functions@[j]) by {
                            assert(out@[j] == before[j]);
                        }
                        assert forall|j: int| 0 <= j < n && straight_body(hir.functions@[j].body@)
                            implies straight_lowered(hir.enums@, hir.functions@[j], #[trigger] out@[j]) by {
                            assert(out@[j] == before[j]);
                        }
                        assert forall|j: int| 0 <= j < k + 1 implies same_signature(#[trigger] out@[n + j], self.new_functions@[j]) by {
                            if j < k {
                                assert(out@[n + j] == before[n + j]);
                            }
                        }
                        assert forall|j: int| 0 <= j < k + 1 && straight_body(self.new_functions@[j].body@) implies straight_lowered(
                            hir.enums@, self.new_functions@[j], #[trigger] out@[n + j]) by {
                            if j < k {
                                assert(out@[n + j] == before[n + j]);
                            }
                        }
                        assert(check_function(hir.enums@, order[n + k]) is Ok);
                    }
                },
                Err(e) => {
                    proof {
                        assert(first_failure(hir.enums@, order, n + k));
                    }
                    return Err(e);
                },
            }
            k = k + 1;
        }
        Ok(out)
    }
}

/// A MIR function has the parameters and the return type of `f` with
/// `args` put for the generic parameters of `f`, each type up to its model.
pub open spec fn signature_substituted(f: HirFunction, args: Seq<Ty>, mf: MirFunction) -> bool {
    let m = param_map(f.generic_params@, args);
    &&& mf.params@.len() == f.params@.len()
    &&& forall|j: int| 0 <= j < f.params@.len() ==> (#[trigger] mf.params@[j]).0 == f.params@[j].0
        && model_of(mf.params@[j].1) == ty_substitute(model_of(f.params@[j].1), m)
    &&& model_of(mf.return_type) == ty_substitute(model_of(f.return_type), m)
}

/// The MIR function at position `pos` is the lowering of the copy of the
/// function `inst.0` for the type arguments `inst.1`: a HIR function with
/// every type substituted in its signature and body (see
/// [`instantiated_fn`]), and, where that body is straight, lowered as
/// [`straight_lowered`] describes.
pub open spec fn copy_lowered(h: HirProgram, inst: (DefId, Seq<Ty>), pos: int, mf: MirFunction) -> bool {
    exists|g: HirFunction| #[trigger] instantiated_fn(h, inst.0, inst.1, DefId(pos as u32), g)
        && (straight_body(g.body@) ==> straight_lowered(h.enums@, g, mf))
}

/// What a successful run gives for the collection `c`: the program's own
/// functions, with their signatures, then the function copies, with the
/// copies' ids following the program's, their names interned apart and
/// their signatures those of the generic function with the type arguments
/// put in; the program's symbols with the
/// function copies' names added; the program's structs then the struct
/// copies, built twice; the program's enums; and no MIR check failing.
pub open spec fn mono_output(h: HirProgram, c: Collected, p: MirProgram) -> bool {
    let n = h.functions@.len();
    let fl = flatten(c.calls);
    let sl = flatten(c.structs);
    let names = copy_names(h, c);
    let hs = h.structs@.len();
    &&& p.functions@.len() == n + fl.len()
    &&& forall|i: int| 0 <= i < n ==> (#[trigger] p.functions@[i]).def_id == h.functions@[i].def_id && p.functions@[i].name
        == h.functions@[i].name
    &&& forall|k: int| 0 <= k < fl.len() ==> (#[trigger] p.functions@[n + k]).def_id == DefId((n + k) as u32)
        && p.functions@[n + k].name.0 == name_id(names, k)
    &&& forall|i: int| 0 <= i < n ==> same_signature(#[trigger] p.functions@[i], h.functions@[i])
    &&& forall|i: int| 0 <= i < n && straight_body(h.functions@[i].body@)
        ==> straight_lowered(h.enums@, h.functions@[i], #[trigger] p.functions@[i])
    &&& forall|k: int| 0 <= k < fl.len() ==> signature_substituted(h.functions@[fl[k].0.0 as int], fl[k].1, #[trigger] p.functions@[n + k])
    &&& forall|k: int| 0 <= k < fl.len() ==> copy_lowered(h, fl[k], n + k, #[trigger] p.functions@[n + k])
    &&& p.symbols@ == intern_all(h.symbols@, names.take(fl.len() as int))
    &&& p.structs@.len() == hs + 2 * sl.len()
    &&& forall|i: int| 0 <= i < hs ==> same_struct(#[trigger] p.structs@[i], h.structs@[i])
    &&& forall|j: int| 0 <= j < 2 * sl.len() ==> built_struct_ok(h, j, fl.len() as int, struct_round(sl, j), names, #[trigger] p.structs@[hs + j])
    &&& p.enums@.len() == h.enums@.len()
    &&& forall|i: int| 0 <= i < h.enums@.len() ==> same_enum(#[trigger] p.enums@[i], h.enums@[i])
    &&& program_errors(p).len() == 0
    &&& forall|i: int| 0 <= i < p.functions@.len() ==> switches_test_true(#[trigger] p.functions@[i])
}

/// The outcome of monomorphizing `h`: the collection's error, or the first
/// lowering failure, or the program [`mono_output`] describes.
pub open spec fn mono_agrees(h: HirProgram, r: Result<MirProgram, CompilerError>) -> bool {
    match program_collection(h) {
        Err(m) => r matches Err(CompilerError::Semantic(mm)) && mm@ == m,
        Ok(c) => {
            let order = lowering_order(h, c);
            &&& (r is Ok <==> forall|i: int| 0 <= i < order.len() ==> (#[trigger] check_function(h.enums@, order[i])) is Ok)
            &&& r matches Err(e) ==> exists|i: int|
                first_failure(h.enums@, order, i) && reported_by(h.symbols@, check_function(h.enums@, #[trigger] order[i]), e)
            &&& r matches Ok(p) ==> mono_output(h, c, p)
        },
    }
}

/// The requirements of a run: functions small enough to lower, and room
/// for every copy's id.
pub open spec fn mono_ready(h: HirProgram) -> bool {
    &&& forall|i: int| 0 <= i < h.functions@.len() ==> function_cost(#[trigger] h.functions@[i]) <= u32::MAX
    &&& program_collection(h) matches Ok(c) ==> copies_fit(h, c)
}

/// What a run owes for the collection `c` once the copies are built.
pub open spec fn lowering_agrees(h: HirProgram, c: Collected, r: Result<MirProgram, CompilerError>) -> bool {
    let order = lowering_order(h, c);
    &&& (r is Ok <==> forall|i: int| 0 <= i < order.len() ==> (#[trigger] check_function(h.enums@, order[i])) is Ok)
    &&& r matches Err(e) ==> exists|i: int|
        first_failure(h.enums@, order, i) && reported_by(h.symbols@, check_function(h.enums@, #[trigger] order[i]), e)
    &&& r matches Ok(p) ==> mono_output(h, c, p)
}

impl<'hir> Monomorphizer<'hir> {
    /// Lower the program's functions and the copies, and assemble the
    /// program from them, the merged symbols, and the structs and enums.
    fn assemble(&mut self, fl: &Vec<Instantiation>, Ghost(c): Ghost<Collected>) -> (r: Result<MirProgram, CompilerError>)
        requires
            old(self).inv(),
            mono_ready(*old(self).hir),
            copies_fit(*old(self).hir, c),
            fl@.map_values(|x: Instantiation| (x.callee, models_of(x.args@))) == flatten(c.calls),
            forall|k: int| 0 <= k < fl@.len() ==> (#[trigger] fl@[k]).callee.0 < old(self).hir.functions@.len(),
            old(self).names@ == copy_names(*old(self).hir, c),
            old(self).new_functions@.len() == fl@.len(),
            forall|k: int| 0 <= k < fl@.len() ==> built_fn_ok(*old(self).hir, k, fl@[k].callee, models_of(fl@[k].args@), old(self).names@, #[trigger] old(self).new_functions@[k]),
            old(self).new_structs@.len() == 2 * flatten(c.structs).len(),
            forall|j: int| 0 <= j < 2 * flatten(c.structs).len() ==> built_struct_ok(
                *old(self).hir,
                j,
                fl@.len() as int,
                struct_round(flatten(c.structs), j),
                old(self).names@,
                #[trigger] old(self).new_structs@[j],
            ),
        ensures
            lowering_agrees(*old(self).hir, c, r),
    {
        let hir = self.hir;
        proof {
            use_type_invariant(&hir.symbols);
        }
        let ghost names = self.names@;
        proof {
            assert(fl@.len() == flatten(c.calls).len());
            assert(lowering_order(*hir, c) =~= hir.functions@ + fl@.map_values(
                |x: Instantiation| hir.functions@[x.callee.0 as int],
            )) by {
                assert forall|k: int| 0 <= k < fl@.len() implies flatten(c.calls)[k].0 == fl@[k].callee by {
                    assert(fl@.map_values(|x: Instantiation| (x.callee, models_of(x.args@)))[k] == flatten(c.calls)[k]);
                }
            }
        }
        let funcs = match self.lower_all(fl) {
            Ok(fs) => fs,
            Err(e) => {
                return Err(e);
            },
        };
        let symbols = self.merged_symbols();
        let mut structs: Vec<StructDef> = Vec::new();
        let mut i: usize = 0;
        while i < hir.structs.len()
            invariant
                i <= hir.structs@.len(),
                structs@.len() == i,
                forall|j: int| 0 <= j < i ==> same_struct(#[trigger] structs@[j], hir.structs@[j]),
            decreases hir.structs@.len() - i,
        {
            structs.push(copy_struct_def(&hir.structs[i]));
            i = i + 1;
        }
        let ghost built = self.new_structs@;
        let mut moved: Vec<StructDef> = Vec::new();
        core::mem::swap(&mut moved, &mut self.new_structs);
        structs.append(&mut moved);
        let mut enums: Vec<EnumDef> = Vec::new();
        let mut i: usize = 0;
        while i < hir.enums.len()
            invariant
                i <= hir.enums@.len(),
                enums@.len() == i,
                forall|j: int| 0 <= j < i ==> same_enum(#[trigger] enums@[j], hir.enums@[j]),
            decreases hir.enums@.len() - i,
        {
            enums.push(copy_enum_def(&hir.enums[i]));
            i = i + 1;
        }
        let p = MirProgram { functions: funcs, symbols, structs, enums };
        proof {
            lemma_no_program_errors(p.symbols@, p.functions@);
            let n = hir.functions@.len();
            assert forall|k: int| 0 <= k < flatten(c.calls).len() implies (#[trigger] p.functions@[n + k]).def_id == DefId(
                (n + k) as u32,
            ) && p.functions@[n + k].name.0 == name_id(copy_names(*hir, c), k) by {
                assert(built_fn_ok(*hir, k, fl@[k].callee, models_of(fl@[k].args@), names, self.new_functions@[k]));
            }
            let fc = flatten(c.calls);
            assert forall|k: int| 0 <= k < fc.len() implies signature_substituted(hir.functions@[fc[k].0.0 as int], fc[k].1,
                #[trigger] p.functions@[n + k]) by {
                assert(fl@.map_values(|x: Instantiation| (x.callee, models_of(x.args@)))[k] == fc[k]);
                assert(built_fn_ok(*hir, k, fl@[k].callee, models_of(fl@[k].args@), names, self.new_functions@[k]));
                assert(same_signature(p.functions@[n + k], self.new_functions@[k]));
            }
            assert forall|k: int| 0 <= k < fc.len() implies copy_lowered(*hir, fc[k], n + k, #[trigger] p.functions@[n + k]) by {
                assert(fl@.map_values(|x: Instantiation| (x.callee, models_of(x.args@)))[k] == fc[k]);
                assert(built_fn_ok(*hir, k, fl@[k].callee, models_of(fl@[k].args@), names, self.new_functions@[k]));
                assert(instantiated_fn(*hir, fc[k].0, fc[k].1, DefId((n + k) as u32), self.new_functions@[k]));
            }
            let hs = hir.structs@.len();
            assert forall|j: int| 0 <= j < 2 * flatten(c.structs).len() implies built_struct_ok(
                *hir,
                j,
                flatten(c.calls).len() as int,
                struct_round(flatten(c.structs), j),
                copy_names(*hir, c),
                #[trigger] p.structs@[hs + j],
            ) by {
                assert(p.structs@[hs + j] == built[j]);
            }
        }
        Ok(p)
    }

    /// Collect, build every copy, lower everything and assemble the program.
    pub fn run(&mut self) -> (r: Result<MirProgram, CompilerError>)
        requires
            old(self).inv(),
            old(self).keys@.len() == 0,
            mono_ready(*old(self).hir),
        ensures
            mono_agrees(*old(self).hir, r),
    {
        let hir = self.hir;
        let col = match collect_program(hir) {
            Ok(c) => c,
            Err(e) => return Err(e),
        };
        let ghost c = col.collected();
        let fl = flat_calls(&col);
        let sl = flat_structs(&col);
        let ghost ff = fl@.map_values(|x: Instantiation| (x.callee, models_of(x.args@)));
        let ghost sf = sl@.map_values(|x: StructInstantiation| (x.original, models_of(x.args@)));
        proof {
            assert(ff == flatten(c.calls));
            assert(sf == flatten(c.structs));
            assert(copies_fit(*hir, c));
            assert(self.new_functions@.len() == 0 && self.new_structs@.len() == 0);
        }
        self.build_functions(&fl);
        let ghost nf = fl@.len() as int;
        let ghost names0 = self.names@;
        self.build_struct_round(&sl, Ghost(nf), Ghost(0int));
        let ghost structs1 = self.new_structs@;
        let ghost names1 = self.names@;
        self.build_struct_round(&sl, Ghost(nf), Ghost(sl@.len() as int));
        let ghost names = self.names@;
        let ghost ns = sl@.len() as int;
        proof {
            let fk = fl@.map_values(|x: Instantiation| x.callee);
            let sk = sl@.map_values(|x: StructInstantiation| x.original);
            assert(fk =~= flatten(c.calls).map_values(|x: (DefId, Seq<Ty>)| x.0));
            assert(sk =~= flatten(c.structs).map_values(|x: (DefId, Seq<Ty>)| x.0));
            assert(self.keys@ == build_keys(c));
            assert(names == copy_names(*hir, c));
            assert(names.take(names0.len() as int) == names0) by {
                assert(names.take(names1.len() as int) == names1);
                assert(names1.take(names0.len() as int) == names0);
                assert(names.take(names0.len() as int) =~= names.take(names1.len() as int).take(names0.len() as int));
            }
            assert forall|k: int| 0 <= k < fl@.len() implies built_fn_ok(*hir, k, fl@[k].callee, models_of(fl@[k].args@), names, #[trigger] self.new_functions@[k]) by {
                lemma_name_id_prefix(names0, names, k);
            }
            assert forall|j: int| 0 <= j < 2 * ns implies built_struct_ok(
                *hir,
                j,
                nf,
                struct_round(sf, j),
                names,
                #[trigger] self.new_structs@[j],
            ) by {
                if j < ns {
                    lemma_name_id_prefix(names1, names, nf + j);
                    assert(self.new_structs@[j] == structs1[j]);
                } else {
                    assert(sf[j - ns] == (sl@[j - ns].original, models_of(sl@[j - ns].args@)));
                }
            }
        }
        self.assemble(&fl, Ghost(c))
    }
}

/// Monomorphize `hir`: collect the instantiations its bodies need, build a
/// copy of each generic function and struct for them, send every call and
/// literal to its copy, and lower the program's functions and the function
/// copies to MIR.  Fails with the first malformed instantiation site, or
/// else with the first function whose lowering fails.
pub fn monomorphize(hir: &HirProgram) -> (r: Result<MirProgram, CompilerError>)
    requires
        mono_ready(*hir),
    ensures
        mono_agrees(*hir, r),
{
    let mut m = Monomorphizer::new(hir);
    m.run()
}

/// A program without generics: no generic function or struct, and no type
/// arguments at any call.
pub open spec fn plain_program(h: HirProgram) -> bool {
    &&& forall|i: int| 0 <= i < h.functions@.len() ==> (#[trigger] h.functions@[i]).generic_params@.len() == 0
    &&& forall|i: int| 0 <= i < h.structs@.len() ==> (#[trigger] h.structs@[i]).generic_params@.len() == 0
    &&& forall|k: int|
        0 <= k < functions_sites(h.functions@).len() ==> ((#[trigger] functions_sites(h.functions@)[k]) matches Site::Call {
            type_args,
            ..
        } ==> type_args.len() == 0)
}

proof fn lemma_plain_sites(p: HirProgram, c: Collected, sites: Seq<Site>)
    requires
        forall|i: int| 0 <= i < p.functions@.len() ==> (#[trigger] p.functions@[i]).generic_params@.len() == 0,
        forall|i: int| 0 <= i < p.structs@.len() ==> (#[trigger] p.structs@[i]).generic_params@.len() == 0,
        forall|k: int| 0 <= k < sites.len() ==> ((#[trigger] sites[k]) matches Site::Call { type_args, .. } ==> type_args.len() == 0),
    ensures
        collect_sites(p, c, sites) == Ok::<Collected, Seq<char>>(c),
    decreases sites.len(),
{
    if sites.len() > 0 {
        lemma_plain_sites(p, c, sites.drop_last());
        let last = sites[sites.len() - 1];
        assert(site_step(p, c, last) == Ok::<Collected, Seq<char>>(c));
    }
}

/// Two lowered programs alike: the same functions by id, name, parameters
/// and return type, the same symbols, copies of the same structs and enums,
/// and both passing every MIR check.
pub open spec fn lowered_alike(p: MirProgram, q: MirProgram) -> bool {
    &&& p.functions@.len() == q.functions@.len()
    &&& forall|i: int| 0 <= i < p.functions@.len() ==> (#[trigger] p.functions@[i]).def_id == q.functions@[i].def_id
        && p.functions@[i].name == q.functions@[i].name
    &&& forall|i: int| 0 <= i < p.functions@.len() ==> same_mir_signature(#[trigger] p.functions@[i], q.functions@[i])
    &&& p.symbols@ == q.symbols@
    &&& p.structs@.len() == q.structs@.len()
    &&& forall|i: int| 0 <= i < p.structs@.len() ==> same_struct(#[trigger] p.structs@[i], q.structs@[i])
    &&& p.enums@.len() == q.enums@.len()
    &&& forall|i: int| 0 <= i < p.enums@.len() ==> same_enum(#[trigger] p.enums@[i], q.enums@[i])
    &&& program_errors(p).len() == 0
    &&& program_errors(q).len() == 0
}

/// Two MIR functions with the same parameters, in order, and the same
/// return type, each type up to its model.
pub open spec fn same_mir_signature(a: MirFunction, b: MirFunction) -> bool {
    &&& a.params@.len() == b.params@.len()
    &&& forall|j: int| 0 <= j < a.params@.len() ==> (#[trigger] a.params@[j]).0 == b.params@[j].0
        && model_of(a.params@[j].1) == model_of(b.params@[j].1)
    &&& model_of(a.return_type) == model_of(b.return_type)
}

/// A program without generics monomorphizes as it lowers: monomorphizing
/// and lowering both succeed or both fail, failing on the same function
/// with its failure, and on success give programs alike, in which each
/// function with a straight body is the single block that its body lowers
/// to.
pub proof fn law_plain_program_lowers_alike(
    h: HirProgram,
    a: Result<MirProgram, CompilerError>,
    b: Result<MirProgram, CompilerError>,
)
    requires
        plain_program(h),
        mono_agrees(h, a),
        lowering_outcome(h, b),
    ensures
        match (a, b) {
            (Ok(p), Ok(q)) => lowered_alike(p, q) && forall|i: int|
                0 <= i < h.functions@.len() && straight_body(h.functions@[i].body@) ==> straight_lowered(h.enums@,
                h.functions@[i], #[trigger] p.functions@[i]) && straight_lowered(h.enums@, h.functions@[i], q.functions@[i]),
            (Err(e1), Err(e2)) => exists|i: int|
                first_failure(h.enums@, h.functions@, i) && reported_by(h.symbols@, check_function(h.enums@, #[trigger] h.functions@[i]), e1)
                    && reported_by(h.symbols@, check_function(h.enums@, h.functions@[i]), e2),
            _ => false,
        },
{
    lemma_plain_sites(h, no_instantiations(), functions_sites(h.functions@));
    let c = no_instantiations();
    assert(program_collection(h) == Ok::<Collected, Seq<char>>(c));
    assert(flatten(c.calls) =~= Seq::<(DefId, Seq<Ty>)>::empty());
    assert(flatten(c.structs) =~= Seq::<(DefId, Seq<Ty>)>::empty());
    let order = lowering_order(h, c);
    assert(order =~= h.functions@);
    match (a, b) {
        (Ok(p), Ok(q)) => {
            let names = copy_names(h, c);
            assert(names.take(0) =~= Seq::<Seq<char>>::empty());
            assert(p.symbols@ == h.symbols@);
            assert forall|i: int| 0 <= i < p.functions@.len() implies same_mir_signature(#[trigger] p.functions@[i], q.functions@[i]) by {
                assert(same_signature(p.functions@[i], h.functions@[i]));
                assert(same_signature(q.functions@[i], h.functions@[i]));
            }
            assert forall|i: int| 0 <= i < p.structs@.len() implies same_struct(#[trigger] p.structs@[i], q.structs@[i]) by {
                assert(same_struct(p.structs@[i], h.structs@[i]));
                assert(same_struct(q.structs@[i], h.structs@[i]));
            }
            assert forall|i: int| 0 <= i < p.enums@.len() implies same_enum(#[trigger] p.enums@[i], q.enums@[i]) by {
                assert(same_enum(p.enums@[i], h.enums@[i]));
                assert(same_enum(q.enums@[i], h.enums@[i]));
            }
        },
        (Err(e1), Err(e2)) => {
            let i = choose|i: int|
                first_failure(h.enums@, order, i) && reported_by(h.symbols@, check_function(h.enums@, #[trigger] order[i]), e1);
            let j = choose|j: int|
                first_failure(h.enums@, h.functions@, j) && reported_by(h.symbols@, check_function(h.enums@, #[trigger] h.functions@[j]), e2);
            assert(i == j) by {
                if i < j {
                    assert(check_function(h.enums@, h.functions@[i]) is Ok);
                } else if j < i {
                    assert(check_function(h.enums@, order[j]) is Ok);
                }
            }
            assert(first_failure(h.enums@, h.functions@, i) && reported_by(h.symbols@, check_function(h.enums@, h.functions@[i]), e1)
                && reported_by(h.symbols@, check_function(h.enums@, h.functions@[i]), e2));
        },
        _ => {},
    }
}

} // verus!
