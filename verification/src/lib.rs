//! Dotty: a small language for declaring dotfile links, verified with Verus.
use vstd::prelude::*;

pub mod text;
pub mod lexer;
pub mod parser;
pub mod interpreter;
pub mod dottyfile;
pub mod install;
pub mod paths;
pub mod lua_config;
pub mod cli;
pub mod laws;

verus! {
} // verus!
