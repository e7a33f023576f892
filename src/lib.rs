//! Turns a list of GN-target imports into crate declarations whose crate
//! names are derived deterministically from the targets' GN paths.
//!
//! The text is split into tokens (`lexer`), parsed into statements
//! (`parser`), each statement's GN path is resolved and validated (`path`),
//! its crate name mangled from the directory (`mangle`), and the results
//! turned into declarations (`emit`) and source text (`render`).

pub mod ascii;
pub mod bytes;
pub mod mangle;
pub mod path;
pub mod lexer;
pub mod parser;
pub mod emit;
pub mod render;
