//! An assembler for the bytecode of a small virtual machine: it turns a
//! source of mnemonics into a binary module.
//!
//! `assembly` assembles the extended format, `assembler` the legacy one.
//! Both read a source in two passes, described by `machine` and `link`, and
//! `laws` holds what is proved of every source. `lexer` and `parser` read
//! the scripting language that is to be compiled to such sources.

pub mod assembler;
pub mod assembly;
pub mod ast;
pub mod buffer;
pub mod consts;
pub mod directives;
pub mod error;
pub mod laws;
pub mod lexer;
pub mod link;
pub mod machine;
pub mod names;
pub mod operand;
pub mod parser;
pub mod pass;
pub mod table;
pub mod text;
