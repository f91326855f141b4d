//! Evaluation of filter expressions against JSON-like bindings.
pub mod text;
pub mod float;
pub mod value;
pub mod errors;
pub mod var;
pub mod exp;
pub mod functions;
pub mod env;
pub mod semantics;
pub mod interpreter;
pub mod display;
pub mod builtins;
pub mod grammar;
pub mod lexer;
pub mod parser;
pub mod laws;
pub mod value_laws;
pub mod float_laws;
pub mod json;
pub mod cli;
pub mod roundtrip;
