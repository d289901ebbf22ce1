//! The SimAsm assembler: lexing, parsing into a lossless syntax tree, the
//! typed view of that tree, and code generation into SimObj object files.
pub mod lexer;
pub mod syntax;
pub mod error;
pub mod parser;
pub mod literals;
pub mod ast;
pub mod registers;
pub mod codegen;
pub mod modes;
pub mod objfile;
pub mod report;
