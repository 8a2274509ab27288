//! Finding the instantiations a program needs.
//!
//! Every call of a generic function and every literal of a generic struct
//! with explicit type arguments is an instantiation site.  Sites are visited
//! in evaluation order; each distinct (definition, type arguments) pair is
//! recorded once, grouped by definition in the order definitions are first
//! met.
use vstd::prelude::*;
use crate::error::CompilerError;
use crate::hir::expr::{HirExpr, HirExprKind};
use crate::hir::function::{HirFunction, HirProgram, StructDef};
use crate::hir::stmt::{HirStmt, HirStmtKind};
use crate::hir::symbol::{DefId, SymbolId};
use crate::hir::types::{HirType, Ty, model_of, models_of, same_types, lemma_models_of_len};
use crate::mir::monomorphize::{Instantiation, StructInstantiation, clone_types, expr_types, types_of};
use crate::text::{decimal, push_wide_decimal};

verus! {

/// An instantiation site: a call (the callee, its argument types and its
/// explicit type arguments) or a struct literal with type arguments.
pub enum Site {
    Call { callee: DefId, arg_tys: Seq<Ty>, type_args: Seq<Ty> },
    StructLit { name: SymbolId, type_args: Seq<Ty> },
}

/// The sites of an expression, in evaluation order: a call's arguments come
/// before the call, a literal's fields before the literal.
pub open spec fn expr_sites(e: HirExpr) -> Seq<Site>
    decreases e,
{
    match e.kind {
        HirExprKind::Assign { value, .. } => expr_sites(*value),
        HirExprKind::AugAssign { value, .. } => expr_sites(*value),
        HirExprKind::Binary { lhs, rhs, .. } => expr_sites(*lhs) + expr_sites(*rhs),
        HirExprKind::Unary { expr, .. } => expr_sites(*expr),
        HirExprKind::Call { func, args, type_args } => exprs_sites(args@) + seq![
            Site::Call { callee: func, arg_tys: expr_types(args@), type_args: models_of(type_args@) },
        ],
        HirExprKind::If { condition, then_branch, elif_branches, else_branch } => expr_sites(*condition) + stmts_sites(
            then_branch@,
        ) + elifs_sites(elif_branches@) + match else_branch {
            Some(b) => stmts_sites(b@),
            None => Seq::empty(),
        },
        HirExprKind::For { iter, body, .. } => expr_sites(*iter) + stmts_sites(body@),
        HirExprKind::While { condition, body } => expr_sites(*condition) + stmts_sites(body@),
        HirExprKind::Range { start, end, .. } => expr_sites(*start) + expr_sites(*end),
        HirExprKind::StructLiteral { name, fields, type_args } => fields_sites(fields@) + if type_args@.len() > 0 {
            seq![Site::StructLit { name, type_args: models_of(type_args@) }]
        } else {
            Seq::empty()
        },
        HirExprKind::FieldAccess { expr, .. } => expr_sites(*expr),
        HirExprKind::ListLiteral { elements } => exprs_sites(elements@),
        HirExprKind::Index { list, index } => expr_sites(*list) + expr_sites(*index),
        HirExprKind::Length { expr } => expr_sites(*expr),
        _ => Seq::empty(),
    }
}

pub open spec fn exprs_sites(es: Seq<HirExpr>) -> Seq<Site>
    decreases es,
{
    if es.len() == 0 {
        Seq::empty()
    } else {
        exprs_sites(es.drop_last()) + expr_sites(es.last())
    }
}

pub open spec fn fields_sites(fs: Seq<(SymbolId, Box<HirExpr>)>) -> Seq<Site>
    decreases fs,
{
    if fs.len() == 0 {
        Seq::empty()
    } else {
        fields_sites(fs.drop_last()) + expr_sites(*fs.last().1)
    }
}

pub open spec fn elifs_sites(arms: Seq<(HirExpr, Vec<HirStmt>)>) -> Seq<Site>
    decreases arms,
{
    if arms.len() == 0 {
        Seq::empty()
    } else {
        elifs_sites(arms.drop_last()) + expr_sites(arms.last().0) + stmts_sites(arms.last().1@)
    }
}

pub open spec fn stmt_sites(s: HirStmt) -> Seq<Site>
    decreases s,
{
    match s.kind {
        HirStmtKind::Let { value, .. } => expr_sites(value),
        HirStmtKind::Expr(e) => expr_sites(e),
        HirStmtKind::Return(Some(e)) => expr_sites(e),
        HirStmtKind::Println(e) => expr_sites(e),
        HirStmtKind::PrintlnStr(e) => expr_sites(e),
        HirStmtKind::Raise(e) => expr_sites(e),
        _ => Seq::empty(),
    }
}

pub open spec fn stmts_sites(ss: Seq<HirStmt>) -> Seq<Site>
    decreases ss,
{
    if ss.len() == 0 {
        Seq::empty()
    } else {
        stmts_sites(ss.drop_last()) + stmt_sites(ss.last())
    }
}

/// The sites of a list of functions' bodies, in order.
pub open spec fn functions_sites(fs: Seq<HirFunction>) -> Seq<Site>
    decreases fs.len(),
{
    if fs.len() == 0 {
        Seq::empty()
    } else {
        functions_sites(fs.drop_last()) + stmts_sites(fs.last().body@)
    }
}

/// Instantiations grouped by definition: each definition once, with its
/// distinct type-argument lists in the order they were met.
pub type Groups = Seq<(DefId, Seq<Seq<Ty>>)>;

/// No definition is listed twice.
pub open spec fn groups_ok(g: Groups) -> bool {
    forall|i: int, j: int| 0 <= i < j < g.len() ==> g[i].0 != g[j].0
}

/// Record the type arguments `v` for definition `k`.
pub open spec fn add_to_group(g: Groups, k: DefId, v: Seq<Ty>) -> Groups {
    if exists|i: int| 0 <= i < g.len() && g[i].0 == k {
        let i = choose|i: int| 0 <= i < g.len() && g[i].0 == k;
        if g[i].1.contains(v) {
            g
        } else {
            g.update(i, (k, g[i].1.push(v)))
        }
    } else {
        g.push((k, seq![v]))
    }
}

/// The name a definition is reported under.
pub open spec fn def_name(symbols: Seq<Seq<char>>, s: SymbolId) -> Seq<char> {
    if s.0 < symbols.len() {
        symbols[s.0 as int]
    } else {
        "<unknown>"@
    }
}

/// The collected instantiations: of functions and of structs.
pub struct Collected {
    pub calls: Groups,
    pub structs: Groups,
}

/// Whether `i` is the first struct of `structs` with the given name.
pub open spec fn first_struct_named(structs: Seq<StructDef>, name: SymbolId, i: int) -> bool {
    &&& 0 <= i < structs.len()
    &&& structs[i].name == name
    &&& forall|j: int| 0 <= j < i ==> structs[j].name != name
}

/// One site's effect on the collection, or the message of its error.
///
/// A call of a function that is not generic must have no type arguments.
/// A call of a generic function takes its explicit type arguments, which
/// must be as many as its parameters, or else its arguments' types, which
/// must be as many.  A call of an unknown function is ignored.  A literal
/// of a generic struct must have as many type arguments as parameters; the
/// struct is found by name, then looked up by its id as a position.
pub open spec fn site_step(p: HirProgram, c: Collected, site: Site) -> Result<Collected, Seq<char>> {
    match site {
        Site::Call { callee, arg_tys, type_args } => if callee.0 >= p.functions@.len() {
            Ok(c)
        } else {
            let f = p.functions@[callee.0 as int];
            let n = f.generic_params@.len();
            let name = def_name(p.symbols@, f.name);
            if n == 0 {
                if type_args.len() > 0 {
                    Err("function "@ + name + " is not generic but received "@ + decimal(type_args.len()) + " type arguments"@)
                } else {
                    Ok(c)
                }
            } else if type_args.len() > 0 {
                if type_args.len() != n {
                    Err("function "@ + name + " expects "@ + decimal(n) + " type arguments, got "@ + decimal(type_args.len()))
                } else {
                    Ok(Collected { calls: add_to_group(c.calls, callee, type_args), structs: c.structs })
                }
            } else if arg_tys.len() != n {
                Err("function "@ + name + " expects "@ + decimal(n) + " type arguments; provide them via `f::<T>(...)`"@)
            } else {
                Ok(Collected { calls: add_to_group(c.calls, callee, arg_tys), structs: c.structs })
            }
        },
        Site::StructLit { name, type_args } => if exists|i: int| first_struct_named(p.structs@, name, i) {
            let did = p.structs@[choose|i: int| first_struct_named(p.structs@, name, i)].def_id;
            if did.0 >= p.structs@.len() {
                Ok(c)
            } else {
                let sd = p.structs@[did.0 as int];
                let n = sd.generic_params@.len();
                if n == 0 {
                    Ok(c)
                } else if type_args.len() != n {
                    Err("struct "@ + def_name(p.symbols@, sd.name) + " expects "@ + decimal(n) + " type arguments, got "@
                        + decimal(type_args.len()))
                } else {
                    Ok(Collected { calls: c.calls, structs: add_to_group(c.structs, did, type_args) })
                }
            }
        } else {
            Ok(c)
        },
    }
}

/// The collection after visiting `sites` in order, or the first error.
pub open spec fn collect_sites(p: HirProgram, c: Collected, sites: Seq<Site>) -> Result<Collected, Seq<char>>
    decreases sites.len(),
{
    if sites.len() == 0 {
        Ok(c)
    } else {
        match collect_sites(p, c, sites.drop_last()) {
            Ok(c1) => site_step(p, c1, sites.last()),
            Err(m) => Err(m),
        }
    }
}

proof fn lemma_collect_concat(p: HirProgram, c: Collected, a: Seq<Site>, b: Seq<Site>)
    ensures
        collect_sites(p, c, a + b) == match collect_sites(p, c, a) {
            Ok(c1) => collect_sites(p, c1, b),
            Err(m) => Err(m),
        },
    decreases b.len(),
{
    if b.len() == 0 {
        assert(a + b == a);
    } else {
        assert((a + b).drop_last() == a + b.drop_last());
        assert((a + b).last() == b.last());
        lemma_collect_concat(p, c, a, b.drop_last());
    }
}


/// Whether a collection step's result agrees with the spec: success with
/// the new collection, or the spec's error as a semantic error.
pub open spec fn step_agrees(spec: Result<Collected, Seq<char>>, r: Result<(), CompilerError>, after: Collected) -> bool {
    match spec {
        Ok(c) => r is Ok && after == c,
        Err(m) => r matches Err(CompilerError::Semantic(mm)) && mm@ == m,
    }
}

pub open spec fn inst_models(v: Seq<Instantiation>) -> Seq<Seq<Ty>> {
    v.map_values(|i: Instantiation| models_of(i.args@))
}

pub open spec fn struct_inst_models(v: Seq<StructInstantiation>) -> Seq<Seq<Ty>> {
    v.map_values(|i: StructInstantiation| models_of(i.args@))
}

/// Collects the instantiations of one program.
pub struct Collector<'hir> {
    pub hir: &'hir HirProgram,
    pub calls: Vec<(DefId, Vec<Instantiation>)>,
    pub structs: Vec<(DefId, Vec<StructInstantiation>)>,
}

impl<'hir> Collector<'hir> {
    pub open spec fn collected(&self) -> Collected {
        Collected {
            calls: self.calls@.map_values(|g: (DefId, Vec<Instantiation>)| (g.0, inst_models(g.1@))),
            structs: self.structs@.map_values(|g: (DefId, Vec<StructInstantiation>)| (g.0, struct_inst_models(g.1@))),
        }
    }

    pub open spec fn wf(&self) -> bool {
        &&& groups_ok(self.collected().calls)
        &&& groups_ok(self.collected().structs)
        &&& forall|i: int| 0 <= i < self.calls@.len() ==> (#[trigger] self.calls@[i]).0.0 < self.hir.functions@.len()
        &&& forall|i: int| 0 <= i < self.structs@.len() ==> (#[trigger] self.structs@[i]).0.0 < self.hir.structs@.len()
        &&& forall|i: int, j: int| 0 <= i < self.calls@.len() && 0 <= j < self.calls@[i].1@.len()
            ==> (#[trigger] self.calls@[i].1@[j]).callee == self.calls@[i].0
        &&& forall|i: int, j: int| 0 <= i < self.structs@.len() && 0 <= j < self.structs@[i].1@.len()
            ==> (#[trigger] self.structs@[i].1@[j]).original == self.structs@[i].0
    }

    /// An empty collection over `hir`.
    pub fn new(hir: &'hir HirProgram) -> (r: Collector<'hir>)
        ensures
            r.hir == hir,
            r.wf(),
            r.collected() == (Collected { calls: Seq::empty(), structs: Seq::empty() }),
    {
        let r = Collector { hir, calls: Vec::new(), structs: Vec::new() };
        assert(r.collected().calls =~= Seq::empty());
        assert(r.collected().structs =~= Seq::empty());
        r
    }

    fn add_call(&mut self, callee: DefId, args: Vec<HirType>)
        requires
            old(self).wf(),
            callee.0 < old(self).hir.functions@.len(),
        ensures
            final(self).wf(),
            final(self).hir == old(self).hir,
            final(self).collected() == (Collected {
                calls: add_to_group(old(self).collected().calls, callee, models_of(args@)),
                structs: old(self).collected().structs,
            }),
    {
        let ghost g = self.collected().calls;
        let ghost v = models_of(args@);
        let mut i: usize = 0;
        while i < self.calls.len()
            invariant
                i <= self.calls@.len(),
                *self == *old(self),
                self.wf(),
                v == models_of(args@),
                g == self.collected().calls,
                forall|k: int| 0 <= k < i ==> self.calls@[k].0 != callee,
            decreases self.calls@.len() - i,
        {
            if self.calls[i].0 == callee {
                proof {
                    assert(g[i as int].0 == callee);
                    let c = choose|c: int| 0 <= c < g.len() && g[c].0 == callee;
                    assert(c == i) by {
                        if c != i {
                            assert(g[c].0 == self.calls@[c].0);
                        }
                    }
                }
                let n = self.calls[i].1.len();
                let mut j: usize = 0;
                while j < n
                    invariant
                        j <= n,
                        *self == *old(self),
                        self.wf(),
                        v == models_of(args@),
                        g == self.collected().calls,
                        n == self.calls@[i as int].1@.len(),
                        i < self.calls@.len(),
                        g[i as int].0 == callee,
                        (choose|c: int| 0 <= c < g.len() && g[c].0 == callee) == i,
                        forall|k: int| 0 <= k < j ==> models_of(self.calls@[i as int].1@[k].args@) != v,
                    decreases n - j,
                {
                    if same_types(&self.calls[i].1[j].args, &args) {
                        proof {
                            assert(inst_models(self.calls@[i as int].1@)[j as int] == v);
                            assert(g[i as int].1.contains(v));
                        }
                        return;
                    }
                    j = j + 1;
                }
                proof {
                    assert forall|k: int| 0 <= k < g[i as int].1.len() implies g[i as int].1[k] != v by {
                        assert(g[i as int].1[k] == models_of(self.calls@[i as int].1@[k].args@));
                    }
                    assert(!g[i as int].1.contains(v));
                }
                let mut group: (DefId, Vec<Instantiation>) = (DefId(0), Vec::new());
                self.calls.set_and_swap(i, &mut group);
                let ghost before = group.1@;
                group.1.push(Instantiation { callee, args });
                self.calls.set(i, group);
                proof {
                    assert(inst_models(group.1@) =~= inst_models(before).push(v));
                    assert(self.collected().calls =~= g.update(i as int, (callee, g[i as int].1.push(v))));
                    assert(self.collected().structs =~= old(self).collected().structs);
                }
                return;
            }
            i = i + 1;
        }
        proof {
            assert(!exists|c: int| 0 <= c < g.len() && g[c].0 == callee) by {
                assert forall|c: int| 0 <= c < g.len() implies g[c].0 != callee by {
                    assert(g[c].0 == self.calls@[c].0);
                }
            }
        }
        self.calls.push((callee, vec![Instantiation { callee, args }]));
        proof {
            let ins = self.calls@[self.calls@.len() - 1].1@;
            assert(inst_models(ins) =~= seq![v]);
            assert(self.collected().calls =~= g.push((callee, seq![v])));
            assert(self.collected().structs =~= old(self).collected().structs);
        }
    }

    fn add_struct(&mut self, original: DefId, args: Vec<HirType>)
        requires
            old(self).wf(),
            original.0 < old(self).hir.structs@.len(),
        ensures
            final(self).wf(),
            final(self).hir == old(self).hir,
            final(self).collected() == (Collected {
                calls: old(self).collected().calls,
                structs: add_to_group(old(self).collected().structs, original, models_of(args@)),
            }),
    {
        let ghost g = self.collected().structs;
        let ghost v = models_of(args@);
        let mut i: usize = 0;
        while i < self.structs.len()
            invariant
                i <= self.structs@.len(),
                *self == *old(self),
                self.wf(),
                v == models_of(args@),
                g == self.collected().structs,
                forall|k: int| 0 <= k < i ==> self.structs@[k].0 != original,
            decreases self.structs@.len() - i,
        {
            if self.structs[i].0 == original {
                proof {
                    assert(g[i as int].0 == original);
                    let c = choose|c: int| 0 <= c < g.len() && g[c].0 == original;
                    assert(c == i) by {
                        if c != i {
                            assert(g[c].0 == self.structs@[c].0);
                        }
                    }
                }
                let n = self.structs[i].1.len();
                let mut j: usize = 0;
                while j < n
                    invariant
                        j <= n,
                        *self == *old(self),
                        self.wf(),
                        v == models_of(args@),
                        g == self.collected().structs,
                        n == self.structs@[i as int].1@.len(),
                        i < self.structs@.len(),
                        g[i as int].0 == original,
                        (choose|c: int| 0 <= c < g.len() && g[c].0 == original) == i,
                        forall|k: int| 0 <= k < j ==> models_of(self.structs@[i as int].1@[k].args@) != v,
                    decreases n - j,
                {
                    if same_types(&self.structs[i].1[j].args, &args) {
                        proof {
                            assert(struct_inst_models(self.structs@[i as int].1@)[j as int] == v);
                            assert(g[i as int].1.contains(v));
                        }
                        return;
                    }
                    j = j + 1;
                }
                proof {
                    assert forall|k: int| 0 <= k < g[i as int].1.len() implies g[i as int].1[k] != v by {
                        assert(g[i as int].1[k] == models_of(self.structs@[i as int].1@[k].args@));
                    }
                    assert(!g[i as int].1.contains(v));
                }
                let mut group: (DefId, Vec<StructInstantiation>) = (DefId(0), Vec::new());
                self.structs.set_and_swap(i, &mut group);
                let ghost before = group.1@;
                group.1.push(StructInstantiation { original, args });
                self.structs.set(i, group);
                proof {
                    assert(struct_inst_models(group.1@) =~= struct_inst_models(before).push(v));
                    assert(self.collected().structs =~= g.update(i as int, (original, g[i as int].1.push(v))));
                    assert(self.collected().calls =~= old(self).collected().calls);
                }
                return;
            }
            i = i + 1;
        }
        proof {
            assert(!exists|c: int| 0 <= c < g.len() && g[c].0 == original) by {
                assert forall|c: int| 0 <= c < g.len() implies g[c].0 != original by {
                    assert(g[c].0 == self.structs@[c].0);
                }
            }
        }
        self.structs.push((original, vec![StructInstantiation { original, args }]));
        proof {
            let ins = self.structs@[self.structs@.len() - 1].1@;
            assert(struct_inst_models(ins) =~= seq![v]);
            assert(self.collected().structs =~= g.push((original, seq![v])));
            assert(self.collected().calls =~= old(self).collected().calls);
        }
    }
}


impl<'hir> Collector<'hir> {
    /// The name a symbol is reported under.
    fn name_of(&self, s: SymbolId) -> (r: &'hir str)
        ensures
            r@ == def_name(self.hir.symbols@, s),
    {
        let hir = self.hir;
        match hir.symbol_name(s) {
            Some(t) => t,
            None => "<unknown>",
        }
    }

    /// Record one call site: a call of `callee` with arguments `args` and
    /// explicit type arguments `explicit` (see [`site_step`]).
    pub fn collect_call_site(&mut self, callee: DefId, args: &Vec<HirExpr>, explicit: &Vec<HirType>) -> (r: Result<(), CompilerError>)
        requires
            old(self).wf(),
        ensures
            final(self).wf(),
            final(self).hir == old(self).hir,
            step_agrees(
                site_step(*old(self).hir, old(self).collected(),
                    Site::Call { callee, arg_tys: expr_types(args@), type_args: models_of(explicit@) }),
                r,
                final(self).collected(),
            ),
    {
        proof {
            lemma_models_of_len(explicit@);
        }
        let hir = self.hir;
        let f = match hir.function(callee) {
            Some(f) => f,
            None => return Ok(()),
        };
        let n = f.generic_params.len();
        if n == 0 {
            if explicit.len() > 0 {
                let mut m = String::from_str("function ");
                m.append(self.name_of(f.name));
                m.append(" is not generic but received ");
                push_wide_decimal(&mut m, explicit.len());
                m.append(" type arguments");
                return Err(CompilerError::semantic(m));
            }
            return Ok(());
        }
        if explicit.len() > 0 {
            if explicit.len() != n {
                let mut m = String::from_str("function ");
                m.append(self.name_of(f.name));
                m.append(" expects ");
                push_wide_decimal(&mut m, n);
                m.append(" type arguments, got ");
                push_wide_decimal(&mut m, explicit.len());
                return Err(CompilerError::semantic(m));
            }
            let ta = clone_types(explicit);
            self.add_call(callee, ta);
        } else {
            if args.len() != n {
                let mut m = String::from_str("function ");
                m.append(self.name_of(f.name));
                m.append(" expects ");
                push_wide_decimal(&mut m, n);
                m.append(" type arguments; provide them via `f::<T>(...)`");
                return Err(CompilerError::semantic(m));
            }
            let ta = types_of(args);
            self.add_call(callee, ta);
        }
        Ok(())
    }

    /// Record one literal of struct `name` with type arguments `type_args`
    /// (see [`site_step`]).
    pub fn collect_struct_site(&mut self, name: SymbolId, type_args: &Vec<HirType>) -> (r: Result<(), CompilerError>)
        requires
            old(self).wf(),
        ensures
            final(self).wf(),
            final(self).hir == old(self).hir,
            step_agrees(
                site_step(*old(self).hir, old(self).collected(), Site::StructLit { name, type_args: models_of(type_args@) }),
                r,
                final(self).collected(),
            ),
    {
        proof {
            lemma_models_of_len(type_args@);
        }
        let hir = self.hir;
        let first = match hir.struct_def(name) {
            Some(d) => d,
            None => {
                proof {
                    assert(!exists|i: int| first_struct_named(hir.structs@, name, i));
                }
                return Ok(());
            },
        };
        proof {
            let i = choose|i: int|
                0 <= i < hir.structs@.len() && hir.structs@[i].name == name
                && (forall|j: int| 0 <= j < i ==> hir.structs@[j].name != name) && *first == hir.structs@[i];
            assert(first_struct_named(hir.structs@, name, i));
            let k = choose|k: int| first_struct_named(hir.structs@, name, k);
            assert(k == i) by {
                if k < i {
                    assert(hir.structs@[k].name != name);
                } else if i < k {
                    assert(hir.structs@[i].name != name);
                }
            }
        }
        let did = first.def_id;
        if did.0 as usize >= hir.structs.len() {
            return Ok(());
        }
        let sd = &hir.structs[did.0 as usize];
        let n = sd.generic_params.len();
        if n == 0 {
            return Ok(());
        }
        if type_args.len() != n {
            let mut m = String::from_str("struct ");
            m.append(self.name_of(sd.name));
            m.append(" expects ");
            push_wide_decimal(&mut m, n);
            m.append(" type arguments, got ");
            push_wide_decimal(&mut m, type_args.len());
            return Err(CompilerError::semantic(m));
        }
        let ta = clone_types(type_args);
        self.add_struct(did, ta);
        Ok(())
    }
}


impl<'hir> Collector<'hir> {
    /// Collect the sites of an expression, in evaluation order, stopping at
    /// the first error.
    pub fn collect_from_expr(&mut self, e: &HirExpr) -> (r: Result<(), CompilerError>)
        requires
            old(self).wf(),
        ensures
            final(self).wf(),
            final(self).hir == old(self).hir,
            step_agrees(collect_sites(*old(self).hir, old(self).collected(), expr_sites(*e)), r, final(self).collected()),
        decreases *e, 2int,
    {
        let ghost p = *self.hir;
        let ghost c0 = self.collected();
        match &e.kind {
            HirExprKind::Assign { value, .. } => self.collect_from_expr(value),
            HirExprKind::AugAssign { value, .. } => self.collect_from_expr(value),
            HirExprKind::Unary { expr, .. } => self.collect_from_expr(expr),
            HirExprKind::FieldAccess { expr, .. } => self.collect_from_expr(expr),
            HirExprKind::Length { expr } => self.collect_from_expr(expr),
            HirExprKind::ListLiteral { elements } => self.collect_from_exprs(elements),
            HirExprKind::Binary { lhs, rhs, .. } => {
                proof {
                    lemma_collect_concat(p, c0, expr_sites(**lhs), expr_sites(**rhs));
                }
                let r1 = self.collect_from_expr(lhs);
                if r1.is_err() {
                    return r1;
                }
                self.collect_from_expr(rhs)
            },
            HirExprKind::Range { start, end, .. } => {
                proof {
                    lemma_collect_concat(p, c0, expr_sites(**start), expr_sites(**end));
                }
                let r1 = self.collect_from_expr(start);
                if r1.is_err() {
                    return r1;
                }
                self.collect_from_expr(end)
            },
            HirExprKind::Index { list, index } => {
                proof {
                    lemma_collect_concat(p, c0, expr_sites(**list), expr_sites(**index));
                }
                let r1 = self.collect_from_expr(list);
                if r1.is_err() {
                    return r1;
                }
                self.collect_from_expr(index)
            },
            HirExprKind::Call { func, args, type_args } => {
                let ghost site = Site::Call { callee: *func, arg_tys: expr_types(args@), type_args: models_of(type_args@) };
                proof {
                    assert(expr_sites(*e) == exprs_sites(args@) + seq![site]);
                    lemma_collect_concat(p, c0, exprs_sites(args@), seq![site]);
                }
                let r1 = self.collect_from_exprs(args);
                if r1.is_err() {
                    return r1;
                }
                proof {
                    let c1 = self.collected();
                    assert(seq![site].drop_last() =~= Seq::<Site>::empty());
                    assert(collect_sites(p, c1, Seq::<Site>::empty()) == Ok::<Collected, Seq<char>>(c1));
                    assert(seq![site].last() == site);
                    assert(collect_sites(p, c1, seq![site]) == site_step(p, c1, site));
                }
                self.collect_call_site(*func, args, type_args)
            },
            HirExprKind::StructLiteral { name, fields, type_args } => {
                let r1 = self.collect_from_fields(fields);
                proof {
                    let rest: Seq<Site> = if type_args@.len() > 0 {
                        seq![Site::StructLit { name: *name, type_args: models_of(type_args@) }]
                    } else {
                        Seq::empty()
                    };
                    assert(expr_sites(*e) == fields_sites(fields@) + rest);
                    lemma_collect_concat(p, c0, fields_sites(fields@), rest);
                    if r1.is_ok() {
                        let c1 = self.collected();
                        if type_args@.len() > 0 {
                            assert(rest.drop_last() =~= Seq::<Site>::empty());
                            assert(collect_sites(p, c1, Seq::<Site>::empty()) == Ok::<Collected, Seq<char>>(c1));
                        } else {
                            assert(collect_sites(p, c1, rest) == Ok::<Collected, Seq<char>>(c1));
                        }
                    }
                }
                if r1.is_err() {
                    return r1;
                }
                if type_args.len() > 0 {
                    self.collect_struct_site(*name, type_args)
                } else {
                    Ok(())
                }
            },
            HirExprKind::If { .. } => self.collect_if(e),
            HirExprKind::For { .. } => self.collect_loop(e),
            HirExprKind::While { .. } => self.collect_loop(e),
            _ => {
                assert(expr_sites(*e) == Seq::<Site>::empty());
                Ok(())
            },
        }
    }
}


impl<'hir> Collector<'hir> {
    /// The sites of an `if`: condition, then-branch, `elif` arms, else-branch.
    fn collect_if(&mut self, e: &HirExpr) -> (r: Result<(), CompilerError>)
        requires
            old(self).wf(),
            e.kind is If,
        ensures
            final(self).wf(),
            final(self).hir == old(self).hir,
            step_agrees(collect_sites(*old(self).hir, old(self).collected(), expr_sites(*e)), r, final(self).collected()),
        decreases *e, 1int,
    {
        let ghost p = *self.hir;
        let ghost c0 = self.collected();
        match &e.kind {
            HirExprKind::If { condition, then_branch, elif_branches, else_branch } => {
                let ghost a = expr_sites(**condition);
                let ghost b = stmts_sites(then_branch@);
                let ghost c = elifs_sites(elif_branches@);
                let ghost d = match else_branch {
                    Some(x) => stmts_sites(x@),
                    None => Seq::<Site>::empty(),
                };
                proof {
                    lemma_collect_concat(p, c0, a + b + c, d);
                    lemma_collect_concat(p, c0, a + b, c);
                    lemma_collect_concat(p, c0, a, b);
                }
                let r1 = self.collect_from_expr(condition);
                if r1.is_err() {
                    return r1;
                }
                let r2 = self.collect_from_stmts(then_branch);
                if r2.is_err() {
                    return r2;
                }
                let r3 = self.collect_from_elifs(elif_branches);
                if r3.is_err() {
                    return r3;
                }
                match else_branch {
                    Some(x) => self.collect_from_stmts(x),
                    None => {
                        assert(collect_sites(p, self.collected(), d) == Ok::<Collected, Seq<char>>(self.collected()));
                        Ok(())
                    },
                }
            },
            _ => Ok(()),
        }
    }

    /// The sites of a loop: its condition or iterator, then its body.
    fn collect_loop(&mut self, e: &HirExpr) -> (r: Result<(), CompilerError>)
        requires
            old(self).wf(),
            e.kind is For || e.kind is While,
        ensures
            final(self).wf(),
            final(self).hir == old(self).hir,
            step_agrees(collect_sites(*old(self).hir, old(self).collected(), expr_sites(*e)), r, final(self).collected()),
        decreases *e, 1int,
    {
        let ghost p = *self.hir;
        let ghost c0 = self.collected();
        match &e.kind {
            HirExprKind::For { iter, body, .. } => {
                proof {
                    lemma_collect_concat(p, c0, expr_sites(**iter), stmts_sites(body@));
                }
                let r1 = self.collect_from_expr(iter);
                if r1.is_err() {
                    return r1;
                }
                self.collect_from_stmts(body)
            },
            HirExprKind::While { condition, body } => {
                proof {
                    lemma_collect_concat(p, c0, expr_sites(**condition), stmts_sites(body@));
                }
                let r1 = self.collect_from_expr(condition);
                if r1.is_err() {
                    return r1;
                }
                self.collect_from_stmts(body)
            },
            _ => Ok(()),
        }
    }

    /// The sites of a list of expressions, in order.
    fn collect_from_exprs(&mut self, es: &Vec<HirExpr>) -> (r: Result<(), CompilerError>)
        requires
            old(self).wf(),
        ensures
            final(self).wf(),
            final(self).hir == old(self).hir,
            step_agrees(collect_sites(*old(self).hir, old(self).collected(), exprs_sites(es@)), r, final(self).collected()),
        decreases es@, 0int,
    {
        let ghost p = *self.hir;
        let ghost c0 = self.collected();
        let mut i: usize = 0;
        assert(es@.take(0) =~= Seq::<HirExpr>::empty());
        while i < es.len()
            invariant
                i <= es@.len(),
                self.wf(),
                self.hir == old(self).hir,
                p == *self.hir,
                c0 == old(self).collected(),
                collect_sites(p, c0, exprs_sites(es@.take(i as int))) == Ok::<Collected, Seq<char>>(self.collected()),
            decreases es@.len() - i,
        {
            proof {
                assert(es@.take(i + 1).drop_last() == es@.take(i as int));
                assert(es@.take(i + 1).last() == es@[i as int]);
                lemma_collect_concat(p, c0, exprs_sites(es@.take(i as int)), expr_sites(es@[i as int]));
            }
            let r = self.collect_from_expr(&es[i]);
            if r.is_err() {
                proof {
                    lemma_exprs_sites_err(p, c0, es@, i + 1);
                }
                return r;
            }
            i = i + 1;
        }
        assert(es@.take(es@.len() as int) == es@);
        Ok(())
    }

    /// The sites of a struct literal's field values, in order.
    fn collect_from_fields(&mut self, fs: &Vec<(SymbolId, Box<HirExpr>)>) -> (r: Result<(), CompilerError>)
        requires
            old(self).wf(),
        ensures
            final(self).wf(),
            final(self).hir == old(self).hir,
            step_agrees(collect_sites(*old(self).hir, old(self).collected(), fields_sites(fs@)), r, final(self).collected()),
        decreases fs@, 0int,
    {
        let ghost p = *self.hir;
        let ghost c0 = self.collected();
        let mut i: usize = 0;
        assert(fs@.take(0) =~= Seq::<(SymbolId, Box<HirExpr>)>::empty());
        while i < fs.len()
            invariant
                i <= fs@.len(),
                self.wf(),
                self.hir == old(self).hir,
                p == *self.hir,
                c0 == old(self).collected(),
                collect_sites(p, c0, fields_sites(fs@.take(i as int))) == Ok::<Collected, Seq<char>>(self.collected()),
            decreases fs@.len() - i,
        {
            proof {
                assert(decreases_to!(fs@ => fs@[i as int]));
                assert(fs@.take(i + 1).drop_last() == fs@.take(i as int));
                assert(fs@.take(i + 1).last() == fs@[i as int]);
                lemma_collect_concat(p, c0, fields_sites(fs@.take(i as int)), expr_sites(*fs@[i as int].1));
            }
            let r = self.collect_from_expr(&fs[i].1);
            if r.is_err() {
                proof {
                    lemma_fields_sites_err(p, c0, fs@, i + 1);
                }
                return r;
            }
            i = i + 1;
        }
        assert(fs@.take(fs@.len() as int) == fs@);
        Ok(())
    }

    /// The sites of `elif` arms: each condition, then its body.
    fn collect_from_elifs(&mut self, arms: &Vec<(HirExpr, Vec<HirStmt>)>) -> (r: Result<(), CompilerError>)
        requires
            old(self).wf(),
        ensures
            final(self).wf(),
            final(self).hir == old(self).hir,
            step_agrees(collect_sites(*old(self).hir, old(self).collected(), elifs_sites(arms@)), r, final(self).collected()),
        decreases arms@, 0int,
    {
        let ghost p = *self.hir;
        let ghost c0 = self.collected();
        let mut i: usize = 0;
        assert(arms@.take(0) =~= Seq::<(HirExpr, Vec<HirStmt>)>::empty());
        while i < arms.len()
            invariant
                i <= arms@.len(),
                self.wf(),
                self.hir == old(self).hir,
                p == *self.hir,
                c0 == old(self).collected(),
                collect_sites(p, c0, elifs_sites(arms@.take(i as int))) == Ok::<Collected, Seq<char>>(self.collected()),
            decreases arms@.len() - i,
        {
            let ghost pre = elifs_sites(arms@.take(i as int));
            let ghost a = expr_sites(arms@[i as int].0);
            let ghost b = stmts_sites(arms@[i as int].1@);
            proof {
                assert(decreases_to!(arms@ => arms@[i as int]));
                assert(arms@.take(i + 1).drop_last() == arms@.take(i as int));
                assert(arms@.take(i + 1).last() == arms@[i as int]);
                lemma_collect_concat(p, c0, pre + a, b);
                lemma_collect_concat(p, c0, pre, a);
            }
            let r1 = self.collect_from_expr(&arms[i].0);
            if r1.is_err() {
                proof {
                    lemma_elifs_sites_err(p, c0, arms@, i + 1);
                }
                return r1;
            }
            let r2 = self.collect_from_stmts(&arms[i].1);
            if r2.is_err() {
                proof {
                    lemma_elifs_sites_err(p, c0, arms@, i + 1);
                }
                return r2;
            }
            i = i + 1;
        }
        assert(arms@.take(arms@.len() as int) == arms@);
        Ok(())
    }

    /// The sites of a statement's expression, if it has one.
    pub fn collect_from_stmt(&mut self, st: &HirStmt) -> (r: Result<(), CompilerError>)
        requires
            old(self).wf(),
        ensures
            final(self).wf(),
            final(self).hir == old(self).hir,
            step_agrees(collect_sites(*old(self).hir, old(self).collected(), stmt_sites(*st)), r, final(self).collected()),
        decreases *st, 2int,
    {
        match &st.kind {
            HirStmtKind::Let { value, .. } => self.collect_from_expr(value),
            HirStmtKind::Expr(e) => self.collect_from_expr(e),
            HirStmtKind::Return(Some(e)) => self.collect_from_expr(e),
            HirStmtKind::Println(e) => self.collect_from_expr(e),
            HirStmtKind::PrintlnStr(e) => self.collect_from_expr(e),
            HirStmtKind::Raise(e) => self.collect_from_expr(e),
            _ => {
                assert(stmt_sites(*st) == Seq::<Site>::empty());
                Ok(())
            },
        }
    }

    /// The sites of a list of statements, in order.
    fn collect_from_stmts(&mut self, ss: &Vec<HirStmt>) -> (r: Result<(), CompilerError>)
        requires
            old(self).wf(),
        ensures
            final(self).wf(),
            final(self).hir == old(self).hir,
            step_agrees(collect_sites(*old(self).hir, old(self).collected(), stmts_sites(ss@)), r, final(self).collected()),
        decreases ss@, 0int,
    {
        let ghost p = *self.hir;
        let ghost c0 = self.collected();
        let mut i: usize = 0;
        assert(ss@.take(0) =~= Seq::<HirStmt>::empty());
        while i < ss.len()
            invariant
                i <= ss@.len(),
                self.wf(),
                self.hir == old(self).hir,
                p == *self.hir,
                c0 == old(self).collected(),
                collect_sites(p, c0, stmts_sites(ss@.take(i as int))) == Ok::<Collected, Seq<char>>(self.collected()),
            decreases ss@.len() - i,
        {
            proof {
                assert(ss@.take(i + 1).drop_last() == ss@.take(i as int));
                assert(ss@.take(i + 1).last() == ss@[i as int]);
                lemma_collect_concat(p, c0, stmts_sites(ss@.take(i as int)), stmt_sites(ss@[i as int]));
            }
            let r = self.collect_from_stmt(&ss[i]);
            if r.is_err() {
                proof {
                    lemma_stmts_sites_err(p, c0, ss@, i + 1);
                }
                return r;
            }
            i = i + 1;
        }
        assert(ss@.take(ss@.len() as int) == ss@);
        Ok(())
    }

    /// The sites of a function's body.
    pub fn collect_from_function(&mut self, func: &HirFunction) -> (r: Result<(), CompilerError>)
        requires
            old(self).wf(),
        ensures
            final(self).wf(),
            final(self).hir == old(self).hir,
            step_agrees(collect_sites(*old(self).hir, old(self).collected(), stmts_sites(func.body@)), r, final(self).collected()),
    {
        self.collect_from_stmts(&func.body)
    }
}


/// The empty collection.
pub open spec fn no_instantiations() -> Collected {
    Collected { calls: Seq::empty(), structs: Seq::empty() }
}

/// The collection of a whole program: every function body in order.
pub open spec fn program_collection(p: HirProgram) -> Result<Collected, Seq<char>> {
    collect_sites(p, no_instantiations(), functions_sites(p.functions@))
}

/// Collect the instantiations of every function body of `hir`, in order;
/// the first malformed site stops collection with its error.
pub fn collect_program<'hir>(hir: &'hir HirProgram) -> (r: Result<Collector<'hir>, CompilerError>)
    ensures
        match program_collection(*hir) {
            Ok(c) => r matches Ok(col) && col.wf() && col.hir == hir && col.collected() == c,
            Err(m) => r matches Err(CompilerError::Semantic(mm)) && mm@ == m,
        },
{
    let mut col = Collector::new(hir);
    let ghost c0 = col.collected();
    let ghost fs = hir.functions@;
    let mut i: usize = 0;
    assert(fs.take(0) =~= Seq::<HirFunction>::empty());
    while i < hir.functions.len()
        invariant
            i <= fs.len(),
            fs == hir.functions@,
            col.wf(),
            col.hir == hir,
            c0 == no_instantiations(),
            collect_sites(*hir, c0, functions_sites(fs.take(i as int))) == Ok::<Collected, Seq<char>>(col.collected()),
        decreases fs.len() - i,
    {
        proof {
            assert(fs.take(i + 1).drop_last() == fs.take(i as int));
            assert(fs.take(i + 1).last() == fs[i as int]);
            lemma_collect_concat(*hir, c0, functions_sites(fs.take(i as int)), stmts_sites(fs[i as int].body@));
        }
        let r = col.collect_from_function(&hir.functions[i]);
        match r {
            Ok(()) => {},
            Err(e) => {
                proof {
                    lemma_functions_sites_err(*hir, c0, fs, i + 1);
                }
                return Err(e);
            },
        }
        i = i + 1;
    }
    assert(fs.take(fs.len() as int) == fs);
    Ok(col)
}

proof fn lemma_functions_sites_err(p: HirProgram, c: Collected, fs: Seq<HirFunction>, k: int)
    requires
        0 <= k <= fs.len(),
        collect_sites(p, c, functions_sites(fs.take(k))) is Err,
    ensures
        collect_sites(p, c, functions_sites(fs)) == collect_sites(p, c, functions_sites(fs.take(k))),
    decreases fs.len() - k,
{
    if k == fs.len() {
        assert(fs.take(k) == fs);
    } else {
        let t = fs.take(k + 1);
        assert(t.drop_last() == fs.take(k));
        lemma_collect_concat(p, c, functions_sites(t.drop_last()), stmts_sites(t.last().body@));
        lemma_functions_sites_err(p, c, fs, k + 1);
    }
}


proof fn lemma_exprs_sites_err(p: HirProgram, c: Collected, es: Seq<HirExpr>, k: int)
    requires
        0 <= k <= es.len(),
        collect_sites(p, c, exprs_sites(es.take(k))) is Err,
    ensures
        collect_sites(p, c, exprs_sites(es)) == collect_sites(p, c, exprs_sites(es.take(k))),
    decreases es.len() - k,
{
    if k == es.len() {
        assert(es.take(k) == es);
    } else {
        let t = es.take(k + 1);
        assert(t.drop_last() == es.take(k));
        lemma_collect_concat(p, c, exprs_sites(t.drop_last()), exprs_sites(t) .skip(exprs_sites(t.drop_last()).len() as int));
        assert(exprs_sites(t) == exprs_sites(t.drop_last()) + exprs_sites(t).skip(exprs_sites(t.drop_last()).len() as int));
        lemma_exprs_sites_err(p, c, es, k + 1);
    }
}

proof fn lemma_stmts_sites_err(p: HirProgram, c: Collected, es: Seq<HirStmt>, k: int)
    requires
        0 <= k <= es.len(),
        collect_sites(p, c, stmts_sites(es.take(k))) is Err,
    ensures
        collect_sites(p, c, stmts_sites(es)) == collect_sites(p, c, stmts_sites(es.take(k))),
    decreases es.len() - k,
{
    if k == es.len() {
        assert(es.take(k) == es);
    } else {
        let t = es.take(k + 1);
        assert(t.drop_last() == es.take(k));
        lemma_collect_concat(p, c, stmts_sites(t.drop_last()), stmts_sites(t) .skip(stmts_sites(t.drop_last()).len() as int));
        assert(stmts_sites(t) == stmts_sites(t.drop_last()) + stmts_sites(t).skip(stmts_sites(t.drop_last()).len() as int));
        lemma_stmts_sites_err(p, c, es, k + 1);
    }
}

proof fn lemma_fields_sites_err(p: HirProgram, c: Collected, es: Seq<(SymbolId, Box<HirExpr>)>, k: int)
    requires
        0 <= k <= es.len(),
        collect_sites(p, c, fields_sites(es.take(k))) is Err,
    ensures
        collect_sites(p, c, fields_sites(es)) == collect_sites(p, c, fields_sites(es.take(k))),
    decreases es.len() - k,
{
    if k == es.len() {
        assert(es.take(k) == es);
    } else {
        let t = es.take(k + 1);
        assert(t.drop_last() == es.take(k));
        lemma_collect_concat(p, c, fields_sites(t.drop_last()), fields_sites(t) .skip(fields_sites(t.drop_last()).len() as int));
        assert(fields_sites(t) == fields_sites(t.drop_last()) + fields_sites(t).skip(fields_sites(t.drop_last()).len() as int));
        lemma_fields_sites_err(p, c, es, k + 1);
    }
}

proof fn lemma_elifs_sites_err(p: HirProgram, c: Collected, es: Seq<(HirExpr, Vec<HirStmt>)>, k: int)
    requires
        0 <= k <= es.len(),
        collect_sites(p, c, elifs_sites(es.take(k))) is Err,
    ensures
        collect_sites(p, c, elifs_sites(es)) == collect_sites(p, c, elifs_sites(es.take(k))),
    decreases es.len() - k,
{
    if k == es.len() {
        assert(es.take(k) == es);
    } else {
        let t = es.take(k + 1);
        assert(t.drop_last() == es.take(k));
        lemma_collect_concat(p, c, elifs_sites(t.drop_last()), elifs_sites(t) .skip(elifs_sites(t.drop_last()).len() as int));
        assert(elifs_sites(t) == elifs_sites(t.drop_last()) + elifs_sites(t).skip(elifs_sites(t.drop_last()).len() as int));
        lemma_elifs_sites_err(p, c, es, k + 1);
    }
}

} // verus!
