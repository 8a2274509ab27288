//! The project configuration of `saturn.toml`: `[package]` metadata and
//! `[dependencies]`.
//!
//! Reading and parsing the TOML text is the caller's part; this module holds
//! the configuration's values, its defaults, and the text of the minimal
//! manifest for a named project.
use vstd::prelude::*;
use crate::error::CompilerError;

verus! {

/// The version a package gets when its manifest names none.
pub open spec fn default_version_spec() -> Seq<char> {
    "0.1.0"@
}

/// The edition a package gets when its manifest names none.
pub open spec fn default_edition_spec() -> Seq<char> {
    "2026"@
}

/// The default package version, `0.1.0`.
pub fn default_version() -> (r: String)
    ensures
        r@ == default_version_spec(),
{
    String::from_str("0.1.0")
}

/// The default edition, `2026`.
pub fn default_edition() -> (r: String)
    ensures
        r@ == default_edition_spec(),
{
    String::from_str("2026")
}

/// The `[package]` section.
#[derive(Debug, Clone)]
pub struct Package {
    pub name: String,
    pub version: String,
    pub edition: String,
}

impl Default for Package {
    /// A package named `untitled` with the default version and edition.
    fn default() -> (r: Package)
        ensures
            r.name@ == "untitled"@,
            r.version@ == default_version_spec(),
            r.edition@ == default_edition_spec(),
    {
        Package { name: String::from_str("untitled"), version: default_version(), edition: default_edition() }
    }
}

/// A dependency: the version requirement written for it.
#[derive(Debug, Clone, PartialEq, Eq)]
pub struct DependencySpec {
    pub version: String,
}

impl DependencySpec {
    /// The dependency written as the requirement `s`; any text is accepted.
    pub fn parse(s: &str) -> (r: Result<DependencySpec, CompilerError>)
        ensures
            r matches Ok(d) && d.version@ == s@,
    {
        Ok(DependencySpec { version: String::from_str(s) })
    }
}

impl std::str::FromStr for DependencySpec {
    type Err = CompilerError;

    fn from_str(s: &str) -> Result<DependencySpec, CompilerError> {
        DependencySpec::parse(s)
    }
}

/// A whole `saturn.toml`: the package and its dependencies in name order.
#[derive(Debug, Clone)]
pub struct SaturnConfig {
    pub package: Package,
    pub dependencies: Vec<(String, DependencySpec)>,
}

impl Default for SaturnConfig {
    /// The default package and no dependencies.
    fn default() -> (r: SaturnConfig)
        ensures
            r.package.name@ == "untitled"@,
            r.package.version@ == default_version_spec(),
            r.package.edition@ == default_edition_spec(),
            r.dependencies@.len() == 0,
    {
        SaturnConfig { package: Package::default(), dependencies: Vec::new() }
    }
}

/// The manifest text of a new project named `name`.
pub open spec fn manifest_for_name(name: Seq<char>) -> Seq<char> {
    "[package]\nname = \""@ + name + "\"\nversion = \"0.1.0\"\nedition = \"2026\"\n"@
}

impl SaturnConfig {
    /// The minimal manifest of a project named `name`: a `[package]` with
    /// that name, version `0.1.0` and edition `2026`.
    pub fn manifest_text(name: &str) -> (r: String)
        ensures
            r@ == manifest_for_name(name@),
    {
        let mut s = String::from_str("[package]\nname = \"");
        s.append(name);
        s.append("\"\nversion = \"0.1.0\"\nedition = \"2026\"\n");
        s
    }
}

} // verus!
