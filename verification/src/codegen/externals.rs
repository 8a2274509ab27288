//! External libraries on the link line: where a library's artifact is
//! looked for, the error when none is found, and the flags that link an
//! embedded Python.  Looking at the file system, the environment and
//! `python3-config` is the caller's part.
use vstd::prelude::*;
use crate::error::{linking_failed_message, LinkError};
use crate::target::OperatingSystem;
use crate::text::{char_is_whitespace, is_unicode_whitespace, push_char, str_chars};

verus! {

/// The runtime an external library belongs to.
#[derive(Clone, Copy, Debug, PartialEq, Eq, Structural)]
pub enum MirExternalKind {
    Rust,
    Python,
    Native,
}

/// An external library a program is linked with.
#[derive(Debug)]
pub struct ExternalLibrary {
    pub name: String,
    pub kind: MirExternalKind,
}

/// A directory searched for an artifact: the output's directory, the
/// working directory, `<cwd>/libs/<name>`, `<cwd>/libs`, `/usr/local/lib`.
#[derive(Clone, Copy, Debug, PartialEq, Eq, Structural)]
pub enum SearchDir {
    OutputDir,
    WorkingDir,
    LibsOf,
    Libs,
    UsrLocalLib,
}

/// A place an artifact is looked for: `<dir>/<file>`, or, when `nested`,
/// `<dir>/<name>/target/release/<file>`.
#[derive(Debug)]
pub struct Candidate {
    pub dir: SearchDir,
    pub nested: bool,
    pub file: String,
}

/// The name a kind is shown under.
pub open spec fn kind_name(k: MirExternalKind) -> Seq<char> {
    match k {
        MirExternalKind::Rust => "rust"@,
        MirExternalKind::Native => "native"@,
        MirExternalKind::Python => "python"@,
    }
}

/// The name a kind is shown under: `rust`, `native` or `python`.
pub fn external_kind_name(k: MirExternalKind) -> (r: &'static str)
    ensures
        r@ == kind_name(k),
{
    match k {
        MirExternalKind::Rust => "rust",
        MirExternalKind::Native => "native",
        MirExternalKind::Python => "python",
    }
}

/// Whether a library has an artifact on the link line: Python libraries
/// have none.
pub fn needs_artifact(k: MirExternalKind) -> (r: bool)
    ensures
        r == (k != MirExternalKind::Python),
{
    !matches!(k, MirExternalKind::Python)
}

/// Whether any of the libraries is a Python one.
pub fn has_python(externals: &[ExternalLibrary]) -> (r: bool)
    ensures
        r == exists|i: int| 0 <= i < externals@.len() && externals@[i].kind == MirExternalKind::Python,
{
    let mut i: usize = 0;
    while i < externals.len()
        invariant
            i <= externals@.len(),
            forall|j: int| 0 <= j < i ==> externals@[j].kind != MirExternalKind::Python,
        decreases externals@.len() - i,
    {
        if matches!(externals[i].kind, MirExternalKind::Python) {
            return true;
        }
        i = i + 1;
    }
    false
}

/// The artifact file names of a library: `lib<name>.a` for Rust;
/// `lib<name>.dylib` then `lib<name>.so` for native libraries on macOS,
/// `lib<name>.so` elsewhere; none for Python.
pub open spec fn artifact_names(k: MirExternalKind, os: OperatingSystem, name: Seq<char>) -> Seq<Seq<char>> {
    match k {
        MirExternalKind::Rust => seq!["lib"@ + name + ".a"@],
        MirExternalKind::Native => if os == OperatingSystem::Darwin {
            seq!["lib"@ + name + ".dylib"@, "lib"@ + name + ".so"@]
        } else {
            seq!["lib"@ + name + ".so"@]
        },
        MirExternalKind::Python => Seq::empty(),
    }
}

/// The directories searched, in order.
pub open spec fn search_order() -> Seq<SearchDir> {
    seq![SearchDir::OutputDir, SearchDir::WorkingDir, SearchDir::LibsOf, SearchDir::Libs, SearchDir::UsrLocalLib]
}

/// The candidates for one file in one directory: the file itself, then,
/// for Rust, the nested build output.
pub open spec fn file_candidates(d: SearchDir, k: MirExternalKind, f: Seq<char>) -> Seq<(SearchDir, bool, Seq<char>)> {
    if k == MirExternalKind::Rust {
        seq![(d, false, f), (d, true, f)]
    } else {
        seq![(d, false, f)]
    }
}

/// The candidates in one directory, file by file.
pub open spec fn dir_candidates(d: SearchDir, k: MirExternalKind, files: Seq<Seq<char>>) -> Seq<(SearchDir, bool, Seq<char>)>
    decreases files.len(),
{
    if files.len() == 0 {
        Seq::empty()
    } else {
        dir_candidates(d, k, files.drop_last()) + file_candidates(d, k, files.last())
    }
}

/// The candidates of all the directories, directory by directory.
pub open spec fn all_candidates(dirs: Seq<SearchDir>, k: MirExternalKind, files: Seq<Seq<char>>) -> Seq<(SearchDir, bool, Seq<char>)>
    decreases dirs.len(),
{
    if dirs.len() == 0 {
        Seq::empty()
    } else {
        all_candidates(dirs.drop_last(), k, files) + dir_candidates(dirs.last(), k, files)
    }
}

pub open spec fn candidate_view(c: Candidate) -> (SearchDir, bool, Seq<char>) {
    (c.dir, c.nested, c.file@)
}

fn concat3(a: &str, b: &str, c: &str) -> (r: String)
    ensures
        r@ == a@ + b@ + c@,
{
    let mut r = String::from_str(a);
    r.append(b);
    r.append(c);
    r
}

fn artifact_file_names(ext: &ExternalLibrary, os: OperatingSystem) -> (r: Vec<String>)
    ensures
        r@.map_values(|s: String| s@) == artifact_names(ext.kind, os, ext.name@),
{
    let mut out: Vec<String> = Vec::new();
    match ext.kind {
        MirExternalKind::Rust => {
            out.push(concat3("lib", ext.name.as_str(), ".a"));
        },
        MirExternalKind::Native => {
            if os == OperatingSystem::Darwin {
                out.push(concat3("lib", ext.name.as_str(), ".dylib"));
            }
            out.push(concat3("lib", ext.name.as_str(), ".so"));
        },
        MirExternalKind::Python => {},
    }
    assert(out@.map_values(|s: String| s@) =~= artifact_names(ext.kind, os, ext.name@));
    out
}

fn search_dir_at(i: usize) -> (r: SearchDir)
    requires
        i < 5,
    ensures
        r == search_order()[i as int],
{
    match i {
        0 => SearchDir::OutputDir,
        1 => SearchDir::WorkingDir,
        2 => SearchDir::LibsOf,
        3 => SearchDir::Libs,
        _ => SearchDir::UsrLocalLib,
    }
}

/// Where the artifact of a library is looked for, in order: in each search
/// directory, each artifact file name, and for Rust libraries right after
/// it the nested build output.  Python libraries have no candidates.
pub fn artifact_candidates(ext: &ExternalLibrary, os: OperatingSystem) -> (r: Vec<Candidate>)
    ensures
        r@.map_values(|c: Candidate| candidate_view(c)) == all_candidates(
            search_order(),
            ext.kind,
            artifact_names(ext.kind, os, ext.name@),
        ),
{
    let files = artifact_file_names(ext, os);
    let ghost fv = files@.map_values(|s: String| s@);
    let ghost order = search_order();
    let mut out: Vec<Candidate> = Vec::new();
    let mut d: usize = 0;
    proof {
        assert(order.take(0) =~= Seq::<SearchDir>::empty());
    }
    while d < 5
        invariant
            d <= 5,
            order == search_order(),
            fv == files@.map_values(|s: String| s@),
            fv == artifact_names(ext.kind, os, ext.name@),
            out@.map_values(|c: Candidate| candidate_view(c)) == all_candidates(order.take(d as int), ext.kind, fv),
        decreases 5 - d,
    {
        let dir = search_dir_at(d);
        let ghost before = out@.map_values(|c: Candidate| candidate_view(c));
        let mut f: usize = 0;
        proof {
            assert(fv.take(0) =~= Seq::<Seq<char>>::empty());
            assert(before + dir_candidates(dir, ext.kind, fv.take(0)) =~= before);
        }
        while f < files.len()
            invariant
                f <= files@.len(),
                fv == files@.map_values(|s: String| s@),
                dir == order[d as int],
                out@.map_values(|c: Candidate| candidate_view(c)) == before + dir_candidates(dir, ext.kind, fv.take(f as int)),
            decreases files@.len() - f,
        {
            let ghost mid = out@.map_values(|c: Candidate| candidate_view(c));
            let c1 = Candidate { dir, nested: false, file: files[f].clone() };
            out.push(c1);
            if matches!(ext.kind, MirExternalKind::Rust) {
                let c2 = Candidate { dir, nested: true, file: files[f].clone() };
                out.push(c2);
            }
            proof {
                assert(fv.take(f + 1).drop_last() =~= fv.take(f as int));
                assert(fv.take(f + 1).last() == fv[f as int]);
                assert(out@.map_values(|c: Candidate| candidate_view(c)) =~= mid + file_candidates(dir, ext.kind, fv[f as int]));
            }
            f = f + 1;
        }
        proof {
            assert(fv.take(files@.len() as int) =~= fv);
            assert(order.take(d + 1).drop_last() =~= order.take(d as int));
            assert(order.take(d + 1).last() == order[d as int]);
        }
        d = d + 1;
    }
    proof {
        assert(order.take(5) =~= order);
    }
    out
}

/// What the linker error for an unresolved library says: its kind and
/// name, and each searched path on a line of its own.
pub open spec fn unresolved_details(k: MirExternalKind, name: Seq<char>, searched: Seq<Seq<char>>) -> Seq<char> {
    "cannot resolve external "@ + kind_name(k) + " library '"@ + name + "'.\nSearched:\n"@ + listing(searched)
}

/// Each path indented by two spaces, on a line of its own.
pub open spec fn listing(paths: Seq<Seq<char>>) -> Seq<char>
    decreases paths.len(),
{
    if paths.len() == 0 {
        Seq::empty()
    } else {
        listing(paths.drop_last()) + "  "@ + paths.last() + "\n"@
    }
}

/// The error for a library whose artifact was found nowhere: linking
/// `output` failed, and the details name the library and list the paths
/// searched.
pub fn unresolved_external(output: String, ext: &ExternalLibrary, searched: &[String]) -> (r: LinkError)
    ensures
        r.message@ == linking_failed_message(output@),
        r.details matches Some(d) && d@ == unresolved_details(ext.kind, ext.name@, searched@.map_values(|s: String| s@)),
{
    let mut d = concat3("cannot resolve external ", external_kind_name(ext.kind), " library '");
    d.append(ext.name.as_str());
    d.append("'.\nSearched:\n");
    let ghost head = d@;
    let mut i: usize = 0;
    while i < searched.len()
        invariant
            i <= searched@.len(),
            d@ == head + listing(searched@.map_values(|s: String| s@).take(i as int)),
        decreases searched@.len() - i,
    {
        d.append("  ");
        d.append(searched[i].as_str());
        d.append("\n");
        proof {
            let sv = searched@.map_values(|s: String| s@);
            assert(sv.take(i + 1).drop_last() =~= sv.take(i as int));
            assert(sv.take(i + 1).last() == searched@[i as int]@);
        }
        i = i + 1;
    }
    proof {
        let sv = searched@.map_values(|s: String| s@);
        assert(sv.take(searched@.len() as int) =~= sv);
    }
    LinkError::linking_failed(output, Some(d))
}

/// The whitespace-separated words of `s` from position `i`, with `cur` the
/// part of a word read before it.
pub open spec fn words_from(s: Seq<char>, i: int, cur: Seq<char>) -> Seq<Seq<char>>
    decreases s.len() - i,
{
    if i >= s.len() {
        if cur.len() > 0 {
            seq![cur]
        } else {
            Seq::empty()
        }
    } else if is_unicode_whitespace(s[i]) {
        (if cur.len() > 0 {
            seq![cur]
        } else {
            Seq::<Seq<char>>::empty()
        }) + words_from(s, i + 1, Seq::empty())
    } else {
        words_from(s, i + 1, cur.push(s[i]))
    }
}

/// The words of a text, split at whitespace.
pub open spec fn words(s: Seq<char>) -> Seq<Seq<char>> {
    words_from(s, 0, Seq::empty())
}

fn flush_word(out: &mut Vec<String>, cur: &mut String)
    ensures
        final(out)@.map_values(|s: String| s@) == old(out)@.map_values(|s: String| s@) + (if old(cur)@.len() > 0 {
            seq![old(cur)@]
        } else {
            Seq::<Seq<char>>::empty()
        }),
        final(cur)@.len() == 0,
{
    let n = str_chars(cur.as_str()).len();
    if n > 0 {
        let w = cur.clone();
        out.push(w);
        *cur = String::new();
        assert(out@.map_values(|s: String| s@) =~= old(out)@.map_values(|s: String| s@) + seq![old(cur)@]);
    } else {
        assert(out@.map_values(|s: String| s@) =~= old(out)@.map_values(|s: String| s@) + Seq::<Seq<char>>::empty());
    }
}

/// The words of a text, split at whitespace.
pub fn split_words(s: &str) -> (r: Vec<String>)
    ensures
        r@.map_values(|w: String| w@) == words(s@),
{
    let cs = str_chars(s);
    let mut out: Vec<String> = Vec::new();
    let mut cur = String::new();
    let mut i: usize = 0;
    while i < cs.len()
        invariant
            cs@ == s@,
            i <= cs@.len(),
            out@.map_values(|w: String| w@) + words_from(s@, i as int, cur@) == words(s@),
        decreases cs@.len() - i,
    {
        let c = cs[i];
        if char_is_whitespace(c) {
            let ghost c0 = cur@;
            let ghost o0 = out@.map_values(|w: String| w@);
            flush_word(&mut out, &mut cur);
            proof {
                assert(cur@ =~= Seq::<char>::empty());
                let lead = if c0.len() > 0 { seq![c0] } else { Seq::<Seq<char>>::empty() };
                assert(words_from(s@, i as int, c0) == lead + words_from(s@, i + 1, Seq::empty()));
                assert(o0 + (lead + words_from(s@, i + 1, Seq::empty())) =~= (o0 + lead) + words_from(s@, i + 1, Seq::empty()));
            }
        } else {
            push_char(&mut cur, c);
        }
        i = i + 1;
    }
    let ghost c0 = cur@;
    let ghost o0 = out@.map_values(|w: String| w@);
    flush_word(&mut out, &mut cur);
    proof {
        let lead = if c0.len() > 0 { seq![c0] } else { Seq::<Seq<char>>::empty() };
        assert(words_from(s@, cs@.len() as int, c0) == lead);
    }
    out
}

/// The first word of `words` that starts with `prefix`, without the prefix.
pub open spec fn first_flag(ws: Seq<Seq<char>>, prefix: Seq<char>) -> Option<Seq<char>>
    decreases ws.len(),
{
    if ws.len() == 0 {
        None
    } else if prefix.is_prefix_of(ws[0]) {
        Some(ws[0].skip(prefix.len() as int))
    } else {
        first_flag(ws.skip(1), prefix)
    }
}

/// The words of `words` that start with `-L` followed by something, as they
/// are.
pub open spec fn dir_flags(ws: Seq<Seq<char>>) -> Seq<Seq<char>>
    decreases ws.len(),
{
    if ws.len() == 0 {
        Seq::empty()
    } else {
        dir_flags(ws.drop_last()) + if "-L"@.is_prefix_of(ws.last()) && ws.last().len() > 2 {
            seq![ws.last()]
        } else {
            Seq::<Seq<char>>::empty()
        }
    }
}

fn starts_with(w: &str, p0: char, p1: char) -> (r: bool)
    ensures
        r == (w@.len() >= 2 && w@[0] == p0 && w@[1] == p1),
{
    let cs = str_chars(w);
    cs.len() >= 2 && cs[0] == p0 && cs[1] == p1
}

fn rest_after_two(w: &str) -> (r: String)
    requires
        w@.len() >= 2,
    ensures
        r@ == w@.skip(2),
{
    let cs = str_chars(w);
    let mut r = String::new();
    let mut i: usize = 2;
    while i < cs.len()
        invariant
            cs@ == w@,
            2 <= i <= cs@.len(),
            r@ == w@.subrange(2, i as int),
        decreases cs@.len() - i,
    {
        push_char(&mut r, cs[i]);
        assert(w@.subrange(2, i + 1) =~= w@.subrange(2, i as int).push(cs@[i as int]));
        i = i + 1;
    }
    assert(w@.subrange(2, cs@.len() as int) =~= w@.skip(2));
    r
}

/// The library named by the first `-l` flag among the linker flags that
/// `python3-config --ldflags --embed` printed.
pub fn python_lib_from_ldflags(flags: &str) -> (r: Option<String>)
    ensures
        match r {
            Some(l) => first_flag(words(flags@), "-l"@) == Some(l@),
            None => first_flag(words(flags@), "-l"@) is None,
        },
{
    let ws = split_words(flags);
    let ghost wv = ws@.map_values(|w: String| w@);
    let mut i: usize = 0;
    proof {
        reveal_strlit("-l");
        assert(wv.skip(0) =~= wv);
    }
    while i < ws.len()
        invariant
            i <= ws@.len(),
            wv == ws@.map_values(|w: String| w@),
            wv == words(flags@),
            first_flag(wv, "-l"@) == first_flag(wv.skip(i as int), "-l"@),
            "-l"@ == seq!['-', 'l'],
        decreases ws@.len() - i,
    {
        proof {
            assert(wv.skip(i as int)[0] == ws@[i as int]@);
            assert(wv.skip(i as int).skip(1) =~= wv.skip(i + 1));
        }
        if starts_with(ws[i].as_str(), '-', 'l') {
            proof {
                assert("-l"@.is_prefix_of(ws@[i as int]@)) by {
                    assert(ws@[i as int]@.take(2) =~= seq!['-', 'l']);
                }
            }
            return Some(rest_after_two(ws[i].as_str()));
        }
        proof {
            if "-l"@.is_prefix_of(ws@[i as int]@) {
                assert(ws@[i as int]@[0] == "-l"@[0]);
                assert(ws@[i as int]@[1] == "-l"@[1]);
            }
        }
        i = i + 1;
    }
    None
}

/// The `-L` flags, with a directory, among the linker flags that
/// `python3-config --ldflags --embed` printed.
pub fn python_dir_flags(flags: &str) -> (r: Vec<String>)
    ensures
        r@.map_values(|s: String| s@) == dir_flags(words(flags@)),
{
    let ws = split_words(flags);
    let ghost wv = ws@.map_values(|w: String| w@);
    let mut out: Vec<String> = Vec::new();
    let mut i: usize = 0;
    proof {
        reveal_strlit("-L");
        assert(wv.take(0) =~= Seq::<Seq<char>>::empty());
    }
    while i < ws.len()
        invariant
            i <= ws@.len(),
            wv == ws@.map_values(|w: String| w@),
            wv == words(flags@),
            out@.map_values(|s: String| s@) == dir_flags(wv.take(i as int)),
            "-L"@ == seq!['-', 'L'],
        decreases ws@.len() - i,
    {
        let ghost o0 = out@.map_values(|s: String| s@);
        let w = &ws[i];
        let keep = starts_with(w.as_str(), '-', 'L') && str_chars(w.as_str()).len() > 2;
        proof {
            assert(wv.take(i + 1).drop_last() =~= wv.take(i as int));
            assert(wv.take(i + 1).last() == w@);
            assert("-L"@.is_prefix_of(w@) <==> (w@.len() >= 2 && w@[0] == '-' && w@[1] == 'L')) by {
                if w@.len() >= 2 && w@[0] == '-' && w@[1] == 'L' {
                    assert(w@.take(2) =~= seq!['-', 'L']);
                }
            }
        }
        if keep {
            out.push(w.clone());
            assert(out@.map_values(|s: String| s@) =~= o0 + seq![w@]);
        } else {
            assert(o0 + Seq::<Seq<char>>::empty() =~= o0);
        }
        i = i + 1;
    }
    proof {
        assert(wv.take(ws@.len() as int) =~= wv);
    }
    out
}

/// The flags that link an embedded Python whose library is `lib`.
pub fn python_link_flags(lib: &str) -> (r: Vec<String>)
    ensures
        r@.map_values(|s: String| s@) == seq!["-l"@ + lib@, "-lpthread"@, "-ldl"@, "-lutil"@, "-lm"@],
{
    let mut out: Vec<String> = Vec::new();
    out.push(concat3("-l", lib, ""));
    out.push(String::from_str("-lpthread"));
    out.push(String::from_str("-ldl"));
    out.push(String::from_str("-lutil"));
    out.push(String::from_str("-lm"));
    proof {
        reveal_strlit("");
    }
    assert(out@.map_values(|s: String| s@) =~= seq!["-l"@ + lib@, "-lpthread"@, "-ldl"@, "-lutil"@, "-lm"@]);
    out
}

} // verus!
