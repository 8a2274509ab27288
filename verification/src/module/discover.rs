//! Module discovery as a state machine.  Starting from the root file, each
//! module's `mod` declarations are followed in order; a module's children
//! are expanded after it, last found first.  Finding and reading a child's
//! file is left to the caller: the machine says which module to look for
//! ([`Discovery::next_step`]) and is told what was found
//! ([`Discovery::child_found`]).
use vstd::prelude::*;
use crate::ast::Program;
use crate::error::CompilerError;
use crate::hir::symbol::spec_intern;
use crate::lexer::prepare::{lexed_as, prepared_from};
use crate::lexer::Token;
use crate::module::graph::{extract_mod_declarations_from_ast, path_parent_of, Module, ModuleGraph};
use crate::module::{ModuleId, ModulePath};
use crate::parser::grammar::program;
use crate::parser::parse;
use crate::parser::view::items_v;
use crate::text::{str_chars, string_from_chars};
use vstd::string::StringSliceAdditionalSpecFns;

verus! {

/// What discovery asks of its caller next.
pub enum DiscoveryStep {
    /// Find the file of module `name`, declared by the module whose file
    /// lies in `dir`: `<dir>/<name>.stnx`, else `<dir>/<name>/mod.stnx`.
    Resolve { dir: String, name: String },
    /// Every declared module has been found.
    Done,
}

/// Whether `p` is what the source text parses to.
pub open spec fn parses_to(src: &str, p: Program) -> bool {
    exists|raw: Seq<Token>, toks: Vec<Token>|
        lexed_as(src.spec_bytes(), raw) && prepared_from(src@, src.spec_bytes(), raw, Ok(toks)) && program(toks@) == Some(
            items_v(p.items@),
        )
}

/// Why a source text gives no program: it does not lex, its layout is
/// refused, its token stream is too long to read, or the tokens are not a
/// program; `e` is the error of that stage.
pub open spec fn fails_to_parse(src: &str, e: CompilerError) -> bool {
    let b = src.spec_bytes();
    ||| crate::lexer::spans_from(crate::lexer::bchars(b), 0) matches Err(j) && e matches CompilerError::Lexer(le)
        && le.offset == j
    ||| exists|raw: Seq<Token>| lexed_as(b, raw) && prepared_from(src@, b, raw, Err(e))
    ||| exists|raw: Seq<Token>, toks: Vec<Token>|
        lexed_as(b, raw) && prepared_from(src@, b, raw, Ok(toks)) && (toks@.len() >= usize::MAX - 16 || (program(toks@)
            is None && e is Parse))
}

/// Lexes, lays out and parses a source text.
fn parse_source(src: &str) -> (r: Result<Program, CompilerError>)
    ensures
        r matches Ok(p) ==> parses_to(src, p),
        r matches Err(e) ==> fails_to_parse(src, e),
{
    let prepared = crate::lexer::prepare::prepare(src);
    let toks = match prepared {
        Ok(t) => t,
        Err(e) => {
            proof {
                if crate::lexer::spans_from(crate::lexer::bchars(src.spec_bytes()), 0) is Ok {
                    let raw = choose|raw: Seq<Token>| lexed_as(src.spec_bytes(), raw) && prepared_from(src@, src.spec_bytes(), raw, prepared);
                    assert(lexed_as(src.spec_bytes(), raw) && prepared_from(src@, src.spec_bytes(), raw, Err(e)));
                }
            }
            return Err(e);
        },
    };
    let ghost t = toks;
    proof {
        assert(crate::lexer::spans_from(crate::lexer::bchars(src.spec_bytes()), 0) is Ok);
    }
    let ghost raw = choose|raw: Seq<Token>| lexed_as(src.spec_bytes(), raw) && prepared_from(src@, src.spec_bytes(), raw, Ok(t));
    if toks.len() >= usize::MAX - 16 {
        let e = CompilerError::config(string_from_chars(&['s', 'o', 'u', 'r', 'c', 'e', ' ', 't', 'o', 'o', ' ', 'l', 'o', 'n', 'g']));
        proof {
            assert(lexed_as(src.spec_bytes(), raw) && prepared_from(src@, src.spec_bytes(), raw, Ok(t)) && t@.len() >= usize::MAX - 16);
        }
        return Err(e);
    }
    match parse(src, toks) {
        Ok(p) => {
            proof {
                assert(lexed_as(src.spec_bytes(), raw) && prepared_from(src@, src.spec_bytes(), raw, Ok(t)) && program(t@) == Some(items_v(p.items@)));
            }
            Ok(p)
        },
        Err(e) => {
            proof {
                assert(lexed_as(src.spec_bytes(), raw) && prepared_from(src@, src.spec_bytes(), raw, Ok(t)) && program(t@) is None && e is Parse);
            }
            Err(e)
        },
    }
}

/// The directory of a module file, as [`Module::dir`] gives it.
pub open spec fn dir_of(file: Seq<char>) -> Seq<char> {
    match path_parent_of(file) {
        Some(d) => d,
        None => "."@,
    }
}

/// Module `m`, at position `k`, hangs under an earlier module: its path is
/// that module's path and one more segment.
pub open spec fn child_of(mods: Seq<Module>, m: Module, k: int) -> bool {
    &&& m.parent is Some
    &&& (m.parent->0).0 < k
    &&& m.path@.len() == mods[(m.parent->0).0 as int].path@.len() + 1
    &&& m.path@.drop_last() == mods[(m.parent->0).0 as int].path@
}

/// Modules form a tree in discovery order: the first has no parent and the
/// empty path; every other one's parent comes before it, and its path is its
/// parent's path and one more segment.
pub open spec fn tree_ok(mods: Seq<Module>) -> bool {
    &&& mods.len() > 0 ==> mods[0].parent is None && mods[0].path@.len() == 0
    &&& forall|k: int|
        0 < k < mods.len() ==> child_of(mods, #[trigger] mods[k], k)
}

/// The state of a discovery: the graph so far, the modules whose
/// declarations are still to be followed (a stack), and the module being
/// expanded with its declarations and the index of the next one.
pub struct Discovery {
    pub graph: ModuleGraph,
    pub to_visit: Vec<ModuleId>,
    pub current: Option<(ModuleId, Vec<String>, usize)>,
}

impl Discovery {
    /// The invariant: the interner is sound, and every module named by the
    /// state is in the graph, each at the position of its id.
    pub open spec fn wf(&self) -> bool {
        &&& self.graph.symbol_interner.wf()
        &&& forall|k: int| 0 <= k < self.graph.modules@.len() ==> (#[trigger] self.graph.modules@[k]).id.0 == k
        &&& tree_ok(self.graph.modules@)
        &&& forall|k: int| 0 <= k < self.to_visit@.len() ==> (#[trigger] self.to_visit@[k]).0 < self.graph.modules@.len()
        &&& self.current matches Some((id, decls, i)) ==> id.0 < self.graph.modules@.len() && i <= decls@.len()
    }

    /// The name of the module asked for.
    pub open spec fn wanted(&self) -> Seq<char> {
        let (_, decls, i) = self.current->0;
        decls@[i as int]@
    }

    /// The directory of the module whose declaration is followed.
    pub open spec fn wanted_in(&self) -> Seq<char> {
        let (id, _, _) = self.current->0;
        dir_of(self.graph.modules@[id.0 as int].file_path@)
    }

    /// Whether a declaration of the module being expanded is still to be
    /// followed.
    pub open spec fn pending(&self) -> bool {
        self.current matches Some((_, decls, i)) && i < decls@.len()
    }

    /// Starts a discovery at the root file, whose text is `source`: the graph
    /// holds the root module alone, with the syntax tree of its source (when
    /// it parses) and its `mod` declarations.
    pub fn start(root_file: String, source: &str) -> (r: Discovery)
        ensures
            r.wf(),
            r.graph.modules@.len() == 1,
            r.graph.modules@[0].id.0 == 0,
            r.graph.modules@[0].path@.len() == 0,
            r.graph.modules@[0].file_path@ == root_file@,
            r.graph.modules@[0].parent is None,
            r.graph.modules@[0].ast matches Some(p) ==> parses_to(source, p),
            r.graph.modules@[0].mod_declarations@.map_values(|s: String| s@) == match r.graph.modules@[0].ast {
                Some(p) => crate::module::graph::mod_item_names(p.items@),
                None => crate::module::mod_decls_from(source@, 0),
            },
            r.graph.symbol_interner@.len() == 0,
            r.to_visit@ == seq![ModuleId(0)],
            r.current is None,
    {
        let mut graph = ModuleGraph::new();
        let mut root = Module::new(ModuleId::root(), ModulePath::new(), root_file);
        let ast = match parse_source(source) {
            Ok(p) => Some(p),
            Err(_) => None,
        };
        root.mod_declarations = extract_mod_declarations_from_ast(ast.as_ref(), source);
        root.ast = ast;
        let id = graph.add_module(root);
        let mut to_visit: Vec<ModuleId> = Vec::new();
        to_visit.push(id);
        Discovery { graph, to_visit, current: None }
    }

    /// What to do next: look for the next declared module of the module
    /// being expanded; when it has none left, expand the module on top of
    /// the stack; when the stack is empty too, discovery is done.
    pub fn next_step(&mut self) -> (r: DiscoveryStep)
        requires
            old(self).wf(),
        ensures
            final(self).wf(),
            final(self).graph == old(self).graph,
            r is Done <==> !final(self).pending(),
            r is Done ==> final(self).to_visit@.len() == 0,
            r matches DiscoveryStep::Resolve { dir, name } ==> final(self).current matches Some((id, decls, i)) && name@
                == decls@[i as int]@ && dir@ == dir_of(final(self).graph.modules@[id.0 as int].file_path@),
            old(self).pending() ==> final(self).current == old(self).current && final(self).to_visit == old(self).to_visit,
            !old(self).pending() && old(self).to_visit@.len() > 0 ==> final(self).to_visit@.len() < old(self).to_visit@.len(),
    {
        loop
            invariant
                self.wf(),
                self.graph == old(self).graph,
                old(self).pending() ==> self.current == old(self).current && self.to_visit == old(self).to_visit,
                !old(self).pending() && old(self).to_visit@.len() > 0 ==> self.to_visit@.len() < old(self).to_visit@.len()
                    || self.to_visit == old(self).to_visit && !self.pending(),
            decreases self.to_visit@.len(),
        {
            let pending = match &self.current {
                Some((_, decls, i)) => *i < decls.len(),
                None => false,
            };
            if pending {
                match &self.current {
                    Some((id, decls, i)) => {
                        let name = decls[*i].clone();
                        let dir = self.graph.modules[id.0 as usize].dir();
                        return DiscoveryStep::Resolve { dir, name };
                    },
                    None => {},
                }
            }
            match self.to_visit.pop() {
                Some(id) => {
                    let decls = copy_names(&self.graph.modules[id.0 as usize].mod_declarations);
                    self.current = Some((id, decls, 0));
                },
                None => {
                    self.current = None;
                    return DiscoveryStep::Done;
                },
            }
        }
    }

    /// The file of the module asked for was found at `file`, holding the
    /// text `source`: the module is added to the graph as a child of the
    /// module being expanded, with the path of its parent and its name,
    /// and is put on the stack; the next declaration comes next.
    pub fn child_found(&mut self, file: String, source: &str)
        requires
            old(self).wf(),
            old(self).pending(),
            old(self).graph.symbol_interner@.len() < u32::MAX,
            old(self).graph.modules@.len() < u32::MAX,
        ensures
            final(self).wf(),
            ({
                let (id, decls, i) = old(self).current->0;
                let n = old(self).graph.modules@.len();
                let (table, seg) = spec_intern(old(self).graph.symbol_interner@, decls@[i as int]@);
                let m = final(self).graph.modules@[n as int];
                &&& final(self).graph.modules@.len() == n + 1
                &&& final(self).graph.modules@.take(n as int) == old(self).graph.modules@
                &&& final(self).graph.symbol_interner@ == table
                &&& m.id.0 == n
                &&& m.path@ == old(self).graph.modules@[id.0 as int].path@.push(crate::hir::symbol::SymbolId(seg as u32))
                &&& m.file_path@ == file@
                &&& m.parent == Some(id)
                &&& (m.ast matches Some(p) ==> parses_to(source, p))
                &&& m.mod_declarations@.map_values(|s: String| s@) == match m.ast {
                    Some(p) => crate::module::graph::mod_item_names(p.items@),
                    None => crate::module::mod_decls_from(source@, 0),
                }
                &&& final(self).to_visit@ == old(self).to_visit@.push(ModuleId(n as u32))
                &&& final(self).current == Some((id, decls, (i + 1) as usize))
            }),
    {
        let ghost c0 = self.current;
        let (id, decls, i) = match self.current.take() {
            Some(c) => c,
            None => {
                return;
            },
        };
        assert((id, decls, i) == c0->0);
        assert(i < decls.len());
        let seg = self.graph.symbol_interner.intern(decls[i].as_str());
        let path = self.graph.modules[id.0 as usize].path.child(seg);
        let n = self.graph.modules.len();
        let mut child = Module::new(ModuleId(n as u32), path, file);
        let ast = match parse_source(source) {
            Ok(p) => Some(p),
            Err(_) => None,
        };
        child.mod_declarations = extract_mod_declarations_from_ast(ast.as_ref(), source);
        child.ast = ast;
        child.parent = Some(id);
        let ghost before = self.graph.modules@;
        let cid = self.graph.add_module(child);
        assert(self.graph.modules@.take(n as int) =~= before);
        proof {
            let mods = self.graph.modules@;
            assert(mods[n as int].path@.drop_last() =~= before[id.0 as int].path@);
            assert forall|k: int| 0 < k < mods.len() implies child_of(mods, #[trigger] mods[k], k) by {
                if k < n {
                    assert(mods[k] == before[k]);
                    assert(child_of(before, before[k], k));
                    assert(mods[(mods[k].parent->0).0 as int] == before[(before[k].parent->0).0 as int]);
                }
            }
        }
        self.to_visit.push(cid);
        self.current = Some((id, decls, i + 1));
    }

    /// The error for a declared module whose file was not found.
    pub fn child_missing(&self) -> (r: CompilerError)
        requires
            self.wf(),
            self.pending(),
        ensures
            r matches CompilerError::Config(m) && m@ == unresolved_message(self.wanted(), self.wanted_in()),
    {
        match &self.current {
            Some((id, decls, i)) => {
                let dir = self.graph.modules[id.0 as usize].dir();
                let mut m = string_from_chars(&['u', 'n', 'r', 'e', 's', 'o', 'l', 'v', 'e', 'd', ' ', 'm', 'o', 'd', 'u', 'l', 'e', ' ', '\'']);
                append(&mut m, decls[*i].as_str());
                append(&mut m, string_from_chars(&['\'', ':', ' ', 'f', 'i', 'l', 'e', ' ', 'n', 'o', 't', ' ', 'f', 'o', 'u', 'n', 'd', ' ', 'i', 'n', ' ']).as_str());
                append(&mut m, dir.as_str());
                CompilerError::config(m)
            },
            None => CompilerError::config(String::new()),
        }
    }
}

/// The message for module `name` not found in directory `dir`.
pub open spec fn unresolved_message(name: Seq<char>, dir: Seq<char>) -> Seq<char> {
    seq!['u', 'n', 'r', 'e', 's', 'o', 'l', 'v', 'e', 'd', ' ', 'm', 'o', 'd', 'u', 'l', 'e', ' ', '\''] + name + seq![
        '\'',
        ':',
        ' ',
        'f',
        'i',
        'l',
        'e',
        ' ',
        'n',
        'o',
        't',
        ' ',
        'f',
        'o',
        'u',
        'n',
        'd',
        ' ',
        'i',
        'n',
        ' ',
    ] + dir
}

fn append(m: &mut String, s: &str)
    ensures
        final(m)@ == old(m)@ + s@,
{
    let cs = str_chars(s);
    let mut i: usize = 0;
    while i < cs.len()
        invariant
            cs@ == s@,
            i <= cs@.len(),
            m@ == old(m)@ + cs@.take(i as int),
        decreases cs@.len() - i,
    {
        crate::text::push_char(m, cs[i]);
        assert(cs@.take(i + 1) =~= cs@.take(i as int).push(cs@[i as int]));
        i = i + 1;
    }
    assert(cs@.take(cs@.len() as int) =~= cs@);
}

fn copy_names(v: &Vec<String>) -> (r: Vec<String>)
    ensures
        r@ == v@,
{
    let mut out: Vec<String> = Vec::new();
    let mut i: usize = 0;
    while i < v.len()
        invariant
            i <= v@.len(),
            out@ == v@.take(i as int),
        decreases v@.len() - i,
    {
        out.push(v[i].clone());
        assert(v@.take(i + 1) =~= v@.take(i as int).push(v@[i as int]));
        i = i + 1;
    }
    assert(v@.take(v@.len() as int) =~= v@);
    out
}

} // verus!
