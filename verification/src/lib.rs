//! A small dynamically-typed scripting language, front to back: lexical
//! scanning, recursive-descent parsing into an abstract syntax tree, and
//! tree-walking evaluation against a lexically-scoped environment.
//!
//! Numbers are fixed-point decimals with six fractional digits, so that
//! every arithmetic step has an exact, machine-checked contract.

pub mod location;
pub mod numbers;
pub mod errors;
pub mod value;
pub mod environment;
pub mod tokens;
pub mod scanner;
pub mod parser;
pub mod interpreter;
pub mod monad;
pub mod reader;
pub mod runhelpers;
