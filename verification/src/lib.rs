//! Cyclang: the front end of a small programming language.
//!
//! The library holds the language's syntax tree, its lexer and parser, the
//! desugaring pass, the type resolver, the semantic checks, the target table
//! and the text utilities that the command line and the REPL use.
use vstd::prelude::*;

pub mod ast;
pub mod text;
pub mod typed_ast;
pub mod type_resolver;
pub mod desugar;
pub mod semantic;
pub mod lexer;
pub mod grammar;
pub mod parser;
pub mod loop_steps;
pub mod positions;
pub mod target;
pub mod ir_text;
pub mod display;
pub mod highlight;
pub mod repl;
pub mod compiler;
pub mod binary_plan;

verus! {

} // verus!
