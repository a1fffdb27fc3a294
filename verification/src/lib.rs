//! A small scripting-language toolkit: a tokenizer and the token stream a
//! compilation reads, the compiler's front end, bytecode chunks and their
//! listings, per-function compiler state, a mark-and-sweep object heap, the string class's text
//! operations, hashing helpers, the checking of test-script output, and the
//! error types shared by the compiler and the virtual machine, each with
//! machine-checked contracts.

pub mod error;
pub mod text;
pub mod scanner;
pub mod memory;
pub mod chunk;
pub mod hash;
pub mod stack;
pub mod unsafe_ref_cell;
pub mod vm;
pub mod compiler;
pub mod harness;
pub mod pattern;
pub mod strings;
pub mod debug;
pub mod parser;
pub mod frontend;
