//! Front end for the Toy tensor language: a lexer, a recursive-descent parser
//! with precedence climbing for binary operators, and a generator that lowers
//! the syntax tree into an SSA-style module of nested operations.
//!
//! The in-memory form of the generated code (modules, functions, blocks,
//! operations, types and attributes) is modelled here as plain data, so that
//! the generator's obligations — every operand refers to an already defined
//! value, constant data matches its declared shape, only `main` is exported —
//! are stated and proved.  Translating that form onward into a native IR
//! engine is left to the embedding program.

pub mod ast;
pub mod ir;
pub mod grammar;
pub mod parser;
pub mod lexer;
pub mod mlir_gen;
pub mod numeric;
pub mod op_builder;
pub mod text;
pub mod toy_dialect;
