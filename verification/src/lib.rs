//! A minimal single-file relational data engine.
//!
//! Statements written in a small SQL dialect are parsed into a typed
//! abstract syntax tree, checked and executed against named tables, and
//! table state is serialized to a flat, comma-delimited text format.
//! Every function here carries a contract that is machine-checked.

pub mod ast;
pub mod text;
pub mod num;
pub mod eval;
pub mod executor;
pub mod parser;
pub mod storage;
pub mod render;
