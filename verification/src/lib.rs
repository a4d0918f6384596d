//! Xact: a deterministic, semantic shell language.
//!
//! The pipeline runs lexer, parser, semantic validation and policy
//! evaluation inside a [`session::Session`]; accepted commands are planned
//! by [`planner`], and everything execution decides (what a tool's result
//! means, where a program is looked for, what a resource budget asks of the
//! system, which branch a `WHEN` clause waits on) lives here too. Each
//! function's contract states its result over the views of its arguments.
use vstd::prelude::*;

pub mod text;
pub mod ast;
pub mod lexer;
pub mod diagnostics;
pub mod parser;
pub mod policy;
pub mod completion;
pub mod reference;
pub mod semantic;
pub mod agent;
pub mod session;
pub mod planner;
pub mod executor;
pub mod describe;
pub mod tell;
pub mod resource;
pub mod resolve;
pub mod completion_graph;
pub mod process;
pub mod cancel;
pub mod tools;
pub mod branches;

verus! {

} // verus!
