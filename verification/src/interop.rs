//! The dependency model of cross-ecosystem interoperability: what kind of
//! thing a dependency is, and the ABI descriptions of Rust wrappers and the
//! Python bridge.
use vstd::prelude::*;

verus! {

/// The ecosystem a dependency comes from.
#[derive(Debug, Clone, Copy, PartialEq, Eq, Hash, Structural)]
pub enum DependencyKind {
    Saturnite,
    Rust,
    Python,
    Native,
}

/// A dependency entry with its kind stated explicitly.
#[derive(Debug, Clone, PartialEq, Eq)]
pub struct DependencyEntry {
    pub kind: DependencyKind,
    pub version: String,
    /// An optional target restriction, such as `linux`.
    pub target: Option<String>,
}

/// The primitive types that may cross the Rust ABI boundary.
#[derive(Debug, Clone, Copy, PartialEq, Eq, Hash, Structural)]
pub enum AbiPrimitive {
    I8,
    I16,
    I32,
    I64,
    U8,
    U16,
    U32,
    U64,
    F32,
    F64,
    Bool,
    Pointer,
}

/// A function a Rust wrapper exposes over the C ABI.
#[derive(Debug, Clone, PartialEq, Eq)]
pub struct RustWrapperFunction {
    pub symbol: String,
    pub params: Vec<AbiPrimitive>,
    pub ret: AbiPrimitive,
    pub requires_wrapper: bool,
}

/// A Rust dependency described by its wrapper functions.
#[derive(Debug, Clone, PartialEq, Eq)]
pub struct RustDependencyWrapper {
    pub kind: DependencyKind,
    pub name: String,
    pub functions: Vec<RustWrapperFunction>,
}

/// How a value crosses the Python boundary; what has no conversion stays
/// an opaque handle.
#[derive(Debug, Clone, Copy, PartialEq, Eq, Structural)]
pub enum PythonConversion {
    IntToInt,
    FloatToFloat,
    BoolToBool,
    StrToStr,
    ListI64ToPythonList,
    UnitToNone,
    Opaque,
}

} // verus!
