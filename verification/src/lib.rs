//! Back end of a small compiler for an integer expression language:
//! a parser for an annotated S-expression intermediate form, a
//! stack-depth analysis pass, and two code generators (a stack-machine
//! bytecode target and a register-style IR target).

pub mod common;
pub mod compiler;
pub mod error;
pub mod jvm;
pub mod llvm;
pub mod parser;

pub use common::Annot;
pub use common::Enriched;
pub use common::LineCol;
