//! Compiler-internal types.
use vstd::prelude::*;
use crate::hir::symbol::SymbolId;

verus! {

/// Compiler-internal type used throughout HIR and MIR.
#[derive(Debug, PartialEq, Eq, Hash)]
pub enum HirType {
    I64,
    F64,
    Bool,
    Str,
    Unit,
    Struct(SymbolId),
    Enum(SymbolId),
    Generic(SymbolId),
    Apply { base: SymbolId, args: Vec<HirType> },
    /// `List<T>`: a homogeneous list with element type `T`.
    List(Box<HirType>),
}

/// Mathematical model of a [`HirType`]: the same tree with sequences in
/// place of vectors.
pub enum Ty {
    I64,
    F64,
    Bool,
    Str,
    Unit,
    Struct(SymbolId),
    Enum(SymbolId),
    Generic(SymbolId),
    Apply { base: SymbolId, args: Seq<Ty> },
    List(Box<Ty>),
}

/// The keyword a primitive type is written with; empty for the other
/// types.
pub open spec fn ty_keyword(t: Ty) -> Seq<char> {
    match t {
        Ty::I64 => seq!['i', '6', '4'],
        Ty::F64 => seq!['f', '6', '4'],
        Ty::Bool => seq!['b', 'o', 'o', 'l'],
        Ty::Str => seq!['s', 't', 'r'],
        Ty::Unit => seq!['u', 'n', 'i', 't'],
        _ => Seq::empty(),
    }
}

pub open spec fn model_of(t: HirType) -> Ty
    decreases t, 0int,
{
    match t {
        HirType::I64 => Ty::I64,
        HirType::F64 => Ty::F64,
        HirType::Bool => Ty::Bool,
        HirType::Str => Ty::Str,
        HirType::Unit => Ty::Unit,
        HirType::Struct(s) => Ty::Struct(s),
        HirType::Enum(s) => Ty::Enum(s),
        HirType::Generic(s) => Ty::Generic(s),
        HirType::Apply { base, args } => Ty::Apply { base, args: models_of(args@) },
        HirType::List(e) => Ty::List(Box::new(model_of(*e))),
    }
}

pub open spec fn models_of(s: Seq<HirType>) -> Seq<Ty>
    decreases s, 1int,
{
    if s.len() == 0 {
        Seq::empty()
    } else {
        models_of(s.drop_last()).push(model_of(s.last()))
    }
}


impl HirType {
    /// Structural copy of a type tree.
    pub fn deep_clone(&self) -> (r: HirType)
        ensures
            model_of(r) == model_of(*self),
        decreases *self,
    {
        match self {
            HirType::I64 => HirType::I64,
            HirType::F64 => HirType::F64,
            HirType::Bool => HirType::Bool,
            HirType::Str => HirType::Str,
            HirType::Unit => HirType::Unit,
            HirType::Struct(s) => HirType::Struct(*s),
            HirType::Enum(s) => HirType::Enum(*s),
            HirType::Generic(s) => HirType::Generic(*s),
            HirType::Apply { base, args } => {
                let mut out: Vec<HirType> = Vec::new();
                let mut i: usize = 0;
                while i < args.len()
                    invariant
                        i <= args.len(),
                        *self == (HirType::Apply { base: *base, args: *args }),
                        models_of(out@) == models_of(args@.take(i as int)),
                    decreases args.len() - i,
                {
                    proof {
                        assert(decreases_to!(*self => (*self)->Apply_args));
                        assert(decreases_to!(*args => args@));
                        assert(decreases_to!(args@ => args@[i as int]));
                        assert(decreases_to!(*self => args@[i as int]));
                    }
                    let c = args[i].deep_clone();
                    proof {
                        assert(args@.take(i + 1).drop_last() == args@.take(i as int));
                        assert(out@.push(c).drop_last() == out@);
                    }
                    out.push(c);
                    i = i + 1;
                }
                assert(args@.take(args.len() as int) == args@);
                HirType::Apply { base: *base, args: out }
            },
            HirType::List(e) => HirType::List(Box::new((**e).deep_clone())),
        }
    }
}

impl Clone for HirType {
    fn clone(&self) -> (r: HirType)
        ensures
            model_of(r) == model_of(*self),
    {
        self.deep_clone()
    }
}

/// Whether a type model mentions a free generic parameter anywhere.
pub open spec fn ty_has_generic(t: Ty) -> bool
    decreases t, 0int,
{
    match t {
        Ty::Generic(_) => true,
        Ty::Apply { args, .. } => tys_have_generic(args),
        _ => false,
    }
}

pub open spec fn tys_have_generic(s: Seq<Ty>) -> bool
    decreases s, 1int,
{
    if s.len() == 0 {
        false
    } else {
        tys_have_generic(s.drop_last()) || ty_has_generic(s.last())
    }
}

/// Replace each `Generic(p)` whose parameter `p` is mapped by `m`.
pub open spec fn ty_substitute(t: Ty, m: Map<SymbolId, Ty>) -> Ty
    decreases t, 0int,
{
    match t {
        Ty::Generic(p) => if m.contains_key(p) {
            m[p]
        } else {
            t
        },
        Ty::Apply { base, args } => Ty::Apply { base, args: tys_substitute(args, m) },
        _ => t,
    }
}

pub open spec fn tys_substitute(s: Seq<Ty>, m: Map<SymbolId, Ty>) -> Seq<Ty>
    decreases s, 1int,
{
    if s.len() == 0 {
        Seq::empty()
    } else {
        tys_substitute(s.drop_last(), m).push(ty_substitute(s.last(), m))
    }
}

pub proof fn lemma_models_of_push(s: Seq<HirType>, t: HirType)
    ensures
        models_of(s.push(t)) == models_of(s).push(model_of(t)),
{
    assert(s.push(t).drop_last() == s);
}

pub proof fn lemma_models_of_len(s: Seq<HirType>)
    ensures
        models_of(s).len() == s.len(),
    decreases s.len(),
{
    if s.len() > 0 {
        lemma_models_of_len(s.drop_last());
    }
}

/// A substitution from generic parameters to concrete types.  Later
/// insertions of the same parameter replace earlier ones.
pub struct Substitution {
    entries: Vec<(SymbolId, HirType)>,
}

pub open spec fn entries_map(e: Seq<(SymbolId, HirType)>) -> Map<SymbolId, Ty>
    decreases e.len(),
{
    if e.len() == 0 {
        Map::empty()
    } else {
        entries_map(e.drop_last()).insert(e.last().0, model_of(e.last().1))
    }
}

proof fn lemma_entries_map_hit(e: Seq<(SymbolId, HirType)>, k: SymbolId, i: int)
    requires
        0 <= i < e.len(),
        e[i].0 == k,
        forall|j: int| i < j < e.len() ==> e[j].0 != k,
    ensures
        entries_map(e).contains_key(k),
        entries_map(e)[k] == model_of(e[i].1),
    decreases e.len(),
{
    if i < e.len() - 1 {
        lemma_entries_map_hit(e.drop_last(), k, i);
    }
}

proof fn lemma_entries_map_miss(e: Seq<(SymbolId, HirType)>, k: SymbolId)
    requires
        forall|j: int| 0 <= j < e.len() ==> e[j].0 != k,
    ensures
        !entries_map(e).contains_key(k),
    decreases e.len(),
{
    if e.len() > 0 {
        lemma_entries_map_miss(e.drop_last(), k);
    }
}

impl View for Substitution {
    type V = Map<SymbolId, Ty>;

    closed spec fn view(&self) -> Map<SymbolId, Ty> {
        entries_map(self.entries@)
    }
}

impl Substitution {
    /// The empty substitution.
    pub fn new() -> (r: Substitution)
        ensures
            r@ == Map::<SymbolId, Ty>::empty(),
    {
        Substitution { entries: Vec::new() }
    }

    /// Map `param` to `ty`, replacing any earlier mapping of `param`.
    pub fn insert(&mut self, param: SymbolId, ty: HirType)
        ensures
            final(self)@ == old(self)@.insert(param, model_of(ty)),
    {
        self.entries.push((param, ty));
        assert(self.entries@.drop_last() == old(self).entries@);
    }

    /// The type that `param` is mapped to, if any.
    pub fn get(&self, param: SymbolId) -> (r: Option<&HirType>)
        ensures
            r is Some <==> self@.contains_key(param),
            r matches Some(t) ==> model_of(*t) == self@[param],
    {
        let n = self.entries.len();
        let mut i: usize = n;
        while i > 0
            invariant
                i <= n,
                n == self.entries@.len(),
                forall|j: int| i <= j < n ==> self.entries@[j].0 != param,
            decreases i,
        {
            i = i - 1;
            if self.entries[i].0 == param {
                proof {
                    lemma_entries_map_hit(self.entries@, param, i as int);
                }
                return Some(&self.entries[i].1);
            }
        }
        proof {
            lemma_entries_map_miss(self.entries@, param);
        }
        None
    }
}

impl HirType {
    /// The type of statements that produce no value.
    pub fn unit() -> (r: HirType)
        ensures
            r == HirType::Unit,
    {
        HirType::Unit
    }

    /// Whether this type is `Unit`.
    pub fn is_unit(&self) -> (r: bool)
        ensures
            r <==> *self is Unit,
    {
        matches!(self, HirType::Unit)
    }

    /// Whether this type contains a free generic parameter, directly or
    /// nested inside the arguments of an `Apply`.
    pub fn contains_generic(&self) -> (r: bool)
        ensures
            r == ty_has_generic(model_of(*self)),
        decreases *self,
    {
        match self {
            HirType::Generic(_) => true,
            HirType::Apply { base, args } => {
                let mut found = false;
                let mut i: usize = 0;
                while i < args.len()
                    invariant
                        i <= args.len(),
                        *self == (HirType::Apply { base: *base, args: *args }),
                        found == tys_have_generic(models_of(args@.take(i as int))),
                    decreases args.len() - i,
                {
                    proof {
                        assert(decreases_to!(*self => (*self)->Apply_args));
                        assert(decreases_to!(*args => args@));
                        assert(decreases_to!(args@ => args@[i as int]));
                    }
                    let g = args[i].contains_generic();
                    proof {
                        assert(args@.take(i + 1) == args@.take(i as int).push(args@[i as int]));
                        lemma_models_of_push(args@.take(i as int), args@[i as int]);
                        assert(models_of(args@.take(i + 1)).drop_last() == models_of(
                            args@.take(i as int),
                        ));
                    }
                    found = found || g;
                    i = i + 1;
                }
                assert(args@.take(args.len() as int) == args@);
                found
            },
            _ => false,
        }
    }

    /// Replace each `Generic(p)` according to `subst`; generic parameters
    /// that `subst` does not map are kept as they are.
    pub fn substitute(&self, subst: &Substitution) -> (r: HirType)
        ensures
            model_of(r) == ty_substitute(model_of(*self), subst@),
        decreases *self,
    {
        match self {
            HirType::Generic(p) => match subst.get(*p) {
                Some(t) => t.clone(),
                None => HirType::Generic(*p),
            },
            HirType::Apply { base, args } => {
                let mut out: Vec<HirType> = Vec::new();
                let mut i: usize = 0;
                while i < args.len()
                    invariant
                        i <= args.len(),
                        *self == (HirType::Apply { base: *base, args: *args }),
                        models_of(out@) == tys_substitute(models_of(args@.take(i as int)), subst@),
                    decreases args.len() - i,
                {
                    proof {
                        assert(decreases_to!(*self => (*self)->Apply_args));
                        assert(decreases_to!(*args => args@));
                        assert(decreases_to!(args@ => args@[i as int]));
                    }
                    let t = args[i].substitute(subst);
                    proof {
                        assert(args@.take(i + 1) == args@.take(i as int).push(args@[i as int]));
                        lemma_models_of_push(args@.take(i as int), args@[i as int]);
                        lemma_models_of_push(out@, t);
                        assert(models_of(args@.take(i + 1)).drop_last() == models_of(
                            args@.take(i as int),
                        ));
                    }
                    out.push(t);
                    i = i + 1;
                }
                assert(args@.take(args.len() as int) == args@);
                HirType::Apply { base: *base, args: out }
            },
            _ => self.clone(),
        }
    }
}


pub proof fn lemma_models_of_index(s: Seq<HirType>, i: int)
    requires
        0 <= i < s.len(),
    ensures
        models_of(s).len() == s.len(),
        models_of(s)[i] == model_of(s[i]),
    decreases s.len(),
{
    lemma_models_of_len(s);
    if i < s.len() - 1 {
        lemma_models_of_index(s.drop_last(), i);
    }
}

proof fn lemma_models_eq(a: Seq<HirType>, b: Seq<HirType>)
    requires
        a.len() == b.len(),
        forall|i: int| 0 <= i < a.len() ==> model_of(#[trigger] a[i]) == model_of(b[i]),
    ensures
        models_of(a) == models_of(b),
    decreases a.len(),
{
    if a.len() > 0 {
        assert(model_of(a[a.len() - 1]) == model_of(b[b.len() - 1]));
        lemma_models_eq(a.drop_last(), b.drop_last());
    }
}

impl HirType {
    /// Whether two types are the same type.
    pub fn same_as(&self, other: &HirType) -> (r: bool)
        ensures
            r == (model_of(*self) == model_of(*other)),
        decreases *self,
    {
        match (self, other) {
            (HirType::I64, HirType::I64) => true,
            (HirType::F64, HirType::F64) => true,
            (HirType::Bool, HirType::Bool) => true,
            (HirType::Str, HirType::Str) => true,
            (HirType::Unit, HirType::Unit) => true,
            (HirType::Struct(a), HirType::Struct(b)) => a == b,
            (HirType::Enum(a), HirType::Enum(b)) => a == b,
            (HirType::Generic(a), HirType::Generic(b)) => a == b,
            (HirType::List(a), HirType::List(b)) => (**a).same_as(b),
            (HirType::Apply { base: b1, args: a1 }, HirType::Apply { base: b2, args: a2 }) => {
                if b1 != b2 || a1.len() != a2.len() {
                    proof {
                        lemma_models_of_len(a1@);
                        lemma_models_of_len(a2@);
                    }
                    return false;
                }
                let mut i: usize = 0;
                while i < a1.len()
                    invariant
                        i <= a1@.len(),
                        a1@.len() == a2@.len(),
                        *self == (HirType::Apply { base: *b1, args: *a1 }),
                        *other == (HirType::Apply { base: *b2, args: *a2 }),
                        forall|k: int| 0 <= k < i ==> model_of(#[trigger] a1@[k]) == model_of(a2@[k]),
                    decreases a1@.len() - i,
                {
                    proof {
                        assert(decreases_to!(*self => (*self)->Apply_args));
                        assert(decreases_to!(*a1 => a1@));
                        assert(decreases_to!(a1@ => a1@[i as int]));
                    }
                    if !a1[i].same_as(&a2[i]) {
                        proof {
                            lemma_models_of_index(a1@, i as int);
                            lemma_models_of_index(a2@, i as int);
                        }
                        return false;
                    }
                    i = i + 1;
                }
                proof {
                    lemma_models_eq(a1@, a2@);
                }
                true
            },
            _ => false,
        }
    }
}

/// Whether two type lists are the same, element by element.
pub fn same_types(a: &Vec<HirType>, b: &Vec<HirType>) -> (r: bool)
    ensures
        r == (models_of(a@) == models_of(b@)),
{
    if a.len() != b.len() {
        proof {
            lemma_models_of_len(a@);
            lemma_models_of_len(b@);
        }
        return false;
    }
    let mut i: usize = 0;
    while i < a.len()
        invariant
            i <= a@.len(),
            a@.len() == b@.len(),
            forall|k: int| 0 <= k < i ==> model_of(#[trigger] a@[k]) == model_of(b@[k]),
        decreases a@.len() - i,
    {
        if !a[i].same_as(&b[i]) {
            proof {
                lemma_models_of_index(a@, i as int);
                lemma_models_of_index(b@, i as int);
            }
            return false;
        }
        i = i + 1;
    }
    proof {
        lemma_models_eq(a@, b@);
    }
    true
}

} // verus!
