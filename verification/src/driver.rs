//! Decisions of the command-line driver that need no I/O.
use vstd::prelude::*;
use crate::target::{OutputKind, Profile, profile_name};

verus! {

/// Where a build writes, and what: an explicit `--emit-ir`, `--emit-object`
/// or `--emit-exe` path wins, in that order; then `-o` (an object with
/// `--no-link`, else an executable); else `target/<profile>/<stem>.o` with
/// `--no-link`, else `target/<profile>/<stem>`.  The stem is the package
/// name, else the input's file stem, else `out`.
pub open spec fn output_for(
    input_stem: Option<Seq<char>>,
    output: Option<Seq<char>>,
    profile: Profile,
    package_name: Option<Seq<char>>,
    emit_ir: Option<Seq<char>>,
    emit_object: Option<Seq<char>>,
    emit_exe: Option<Seq<char>>,
    no_link: bool,
) -> (Seq<char>, OutputKind) {
    let stem = match package_name {
        Some(n) => n,
        None => match input_stem {
            Some(s) => s,
            None => "out"@,
        },
    };
    let dir = "target/"@ + profile_name(profile) + "/"@;
    if emit_ir is Some {
        (emit_ir->0, OutputKind::Ir)
    } else if emit_object is Some {
        (emit_object->0, OutputKind::Object)
    } else if emit_exe is Some {
        (emit_exe->0, OutputKind::Exe)
    } else if output is Some {
        (output->0, if no_link { OutputKind::Object } else { OutputKind::Exe })
    } else if no_link {
        (dir + stem + ".o"@, OutputKind::Object)
    } else {
        (dir + stem, OutputKind::Exe)
    }
}

pub open spec fn opt_view(s: Option<String>) -> Option<Seq<char>> {
    match s {
        Some(x) => Some(x@),
        None => None,
    }
}

/// The output path and artifact kind of a build (see [`output_for`]).
pub fn resolve_output(
    input_stem: Option<String>,
    output: Option<String>,
    profile: Profile,
    package_name: Option<String>,
    emit_ir: Option<String>,
    emit_object: Option<String>,
    emit_exe: Option<String>,
    no_link: bool,
) -> (r: (String, OutputKind))
    ensures
        (r.0@, r.1) == output_for(
            opt_view(input_stem),
            opt_view(output),
            profile,
            opt_view(package_name),
            opt_view(emit_ir),
            opt_view(emit_object),
            opt_view(emit_exe),
            no_link,
        ),
{
    let stem = match package_name {
        Some(n) => n,
        None => match input_stem {
            Some(s) => s,
            None => String::from_str("out"),
        },
    };
    if let Some(path) = emit_ir {
        (path, OutputKind::Ir)
    } else if let Some(path) = emit_object {
        (path, OutputKind::Object)
    } else if let Some(path) = emit_exe {
        (path, OutputKind::Exe)
    } else if let Some(path) = output {
        if no_link {
            (path, OutputKind::Object)
        } else {
            (path, OutputKind::Exe)
        }
    } else {
        let mut p = String::from_str("target/");
        p.append(profile.as_str());
        p.append("/");
        p.append(stem.as_str());
        if no_link {
            p.append(".o");
            (p, OutputKind::Object)
        } else {
            (p, OutputKind::Exe)
        }
    }
}

} // verus!
