//! The linking stage of code generation.

pub mod externals;
pub mod linker;

pub use linker::Linker;
