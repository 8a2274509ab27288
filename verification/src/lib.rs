//! Saturnite compiler library: the verified front end and middle end.

pub mod ast;
pub mod codegen;
pub mod config;
pub mod driver;
pub mod error;
pub mod hir;
pub mod interop;
pub mod lexer;
pub mod mir;
pub mod module;
pub mod parser;
pub mod target;
pub mod text;
