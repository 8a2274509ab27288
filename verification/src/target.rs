//! Target description: operating system, environment, build profile and
//! the kind of artifact a build produces.
use vstd::prelude::*;

verus! {

/// Operating systems the linker knows how to drive.
#[derive(Debug, Clone, Copy, PartialEq, Eq, Structural)]
pub enum OperatingSystem {
    Linux,
    Darwin,
    Windows,
    FreeBSD,
    Unknown,
}

/// ABI environments of a target.
#[derive(Debug, Clone, Copy, PartialEq, Eq, Structural)]
pub enum Environment {
    Msvc,
    Gnu,
    Musl,
    Unknown,
}

/// What linking needs to know of a target.
#[derive(Debug, Clone, Copy, PartialEq, Eq, Structural)]
pub struct TargetConfig {
    pub os: OperatingSystem,
    pub environment: Environment,
}

impl TargetConfig {
    /// The target's operating system.
    pub fn os(&self) -> (r: &OperatingSystem)
        ensures
            *r == self.os,
    {
        &self.os
    }

    /// The target's environment.
    pub fn environment(&self) -> (r: &Environment)
        ensures
            *r == self.environment,
    {
        &self.environment
    }
}

/// A build profile.
#[derive(Debug, Clone, Copy, PartialEq, Eq, Structural)]
pub enum Profile {
    Debug,
    Release,
}

/// The directory name of a profile under `target/`.
pub open spec fn profile_name(p: Profile) -> Seq<char> {
    match p {
        Profile::Debug => "debug"@,
        Profile::Release => "release"@,
    }
}

impl Profile {
    /// The profile's name: `debug` or `release`.
    pub fn as_str(&self) -> (r: &'static str)
        ensures
            r@ == profile_name(*self),
    {
        match self {
            Profile::Debug => "debug",
            Profile::Release => "release",
        }
    }
}

impl Default for Profile {
    fn default() -> (r: Profile)
        ensures
            r == Profile::Debug,
    {
        Profile::Debug
    }
}

/// The artifact a build writes.
#[derive(Debug, Clone, Copy, PartialEq, Eq, Structural)]
pub enum OutputKind {
    Ir,
    Object,
    Exe,
}

} // verus!
