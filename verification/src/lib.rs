//! A verified compiler for a small C-like source language. A
//! recursive-descent parser builds a syntax tree with correct operator
//! precedence and associativity, and a tree-walking code generator lowers it
//! to stack-machine assembly text, assigning stack slots to identifiers and
//! unique labels to control flow. The parser is proved equal to a
//! specification grammar over bytes, and the generator to a specification of
//! the exact emitted text.
pub mod ast;
pub mod codegen;
pub mod eval;
pub mod parser;
