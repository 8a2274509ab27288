//! Choosing the platform linker and its command line.
//!
//! Running the linker, finding it on `PATH` and locating external library
//! artifacts are the caller's part; this module decides what to run.
use vstd::prelude::*;
use crate::target::{Environment, OperatingSystem, TargetConfig};

verus! {

/// Links object files into an executable for one target.
pub struct Linker<'cfg> {
    pub target_config: &'cfg TargetConfig,
}

/// The linker program for a target: `cc` on Linux, `clang` on macOS,
/// `link.exe` for Windows MSVC, `gcc` for Windows GNU, `cc` otherwise.
pub open spec fn linker_for(os: OperatingSystem, env: Environment) -> Seq<char> {
    match (os, env) {
        (OperatingSystem::Linux, _) => "cc"@,
        (OperatingSystem::Darwin, _) => "clang"@,
        (OperatingSystem::Windows, Environment::Msvc) => "link.exe"@,
        (OperatingSystem::Windows, Environment::Gnu) => "gcc"@,
        _ => "cc"@,
    }
}

/// The linker's arguments: the object, the output, the runtime library.
/// Unix-style linkers get `obj -o out runtime -no-pie`; MSVC gets
/// `obj /OUT:out /DEFAULTLIB:runtime`; other Windows environments
/// `obj /OUT:out runtime`.
pub open spec fn linker_args_for(
    os: OperatingSystem,
    env: Environment,
    obj: Seq<char>,
    out: Seq<char>,
    runtime: Seq<char>,
) -> Seq<Seq<char>> {
    match (os, env) {
        (OperatingSystem::Windows, Environment::Msvc) => seq![obj, "/OUT:"@ + out, "/DEFAULTLIB:"@ + runtime],
        (OperatingSystem::Windows, Environment::Gnu) => seq![obj, "-o"@, out, runtime, "-no-pie"@],
        (OperatingSystem::Windows, _) => seq![obj, "/OUT:"@ + out, runtime],
        _ => seq![obj, "-o"@, out, runtime, "-no-pie"@],
    }
}

pub open spec fn strings_view(v: Seq<String>) -> Seq<Seq<char>> {
    v.map_values(|s: String| s@)
}

fn owned(s: &str) -> (r: String)
    ensures
        r@ == s@,
{
    String::from_str(s)
}

fn prefixed(prefix: &str, s: &str) -> (r: String)
    ensures
        r@ == prefix@ + s@,
{
    let mut r = String::from_str(prefix);
    r.append(s);
    r
}

impl<'cfg> Linker<'cfg> {
    /// A linker for the given target.
    pub fn new(target_config: &'cfg TargetConfig) -> (r: Linker<'cfg>)
        ensures
            *r.target_config == *target_config,
    {
        Linker { target_config }
    }

    /// The linker command: the program to run, as a one-element list.
    pub fn select_linker(&self, os: &OperatingSystem, env: &Environment) -> (r: Vec<String>)
        ensures
            strings_view(r@) == seq![linker_for(*os, *env)],
    {
        let name = match (os, env) {
            (OperatingSystem::Linux, _) => "cc",
            (OperatingSystem::Darwin, _) => "clang",
            (OperatingSystem::Windows, Environment::Msvc) => "link.exe",
            (OperatingSystem::Windows, Environment::Gnu) => "gcc",
            _ => "cc",
        };
        let v = vec![owned(name)];
        assert(strings_view(v@) =~= seq![linker_for(*os, *env)]);
        v
    }

    /// The linker's arguments for linking `obj` with the runtime library
    /// `runtime` into `output`.
    pub fn build_linker_args(
        &self,
        os: &OperatingSystem,
        env: &Environment,
        obj: &str,
        output: &str,
        runtime: &str,
    ) -> (r: Vec<String>)
        ensures
            strings_view(r@) == linker_args_for(*os, *env, obj@, output@, runtime@),
    {
        let v = match (os, env) {
            (OperatingSystem::Windows, Environment::Msvc) => vec![
                owned(obj),
                prefixed("/OUT:", output),
                prefixed("/DEFAULTLIB:", runtime),
            ],
            (OperatingSystem::Windows, Environment::Gnu) => vec![
                owned(obj),
                owned("-o"),
                owned(output),
                owned(runtime),
                owned("-no-pie"),
            ],
            (OperatingSystem::Windows, _) => vec![owned(obj), prefixed("/OUT:", output), owned(runtime)],
            _ => vec![owned(obj), owned("-o"), owned(output), owned(runtime), owned("-no-pie")],
        };
        assert(strings_view(v@) =~= linker_args_for(*os, *env, obj@, output@, runtime@));
        v
    }
}

/// The name of an operating system in messages.
pub open spec fn os_description(os: OperatingSystem) -> Seq<char> {
    match os {
        OperatingSystem::Linux => "Linux"@,
        OperatingSystem::Darwin => "macOS"@,
        OperatingSystem::Windows => "Windows"@,
        OperatingSystem::FreeBSD => "FreeBSD"@,
        OperatingSystem::Unknown => "Unknown"@,
    }
}

/// The name of an environment in messages.
pub open spec fn env_description(env: Environment) -> Seq<char> {
    match env {
        Environment::Msvc => "MSVC"@,
        Environment::Gnu => "GNU"@,
        Environment::Musl => "Musl"@,
        Environment::Unknown => "Unknown"@,
    }
}

/// How an operating system is named in messages.
pub fn describe_os(os: &OperatingSystem) -> (r: &'static str)
    ensures
        r@ == os_description(*os),
{
    match os {
        OperatingSystem::Linux => "Linux",
        OperatingSystem::Darwin => "macOS",
        OperatingSystem::Windows => "Windows",
        OperatingSystem::FreeBSD => "FreeBSD",
        OperatingSystem::Unknown => "Unknown",
    }
}

/// How an environment is named in messages.
pub fn describe_env(env: &Environment) -> (r: &'static str)
    ensures
        r@ == env_description(*env),
{
    match env {
        Environment::Msvc => "MSVC",
        Environment::Gnu => "GNU",
        Environment::Musl => "Musl",
        Environment::Unknown => "Unknown",
    }
}

} // verus!
