//! A tree-walking interpreter for a small subset of the Lox language:
//! scanning, parsing, printing and evaluation, with contracts checked by Verus.
//!
//! Floating-point arithmetic, parsing and formatting are left to the host
//! program: the library asks for them and carries numbers as their IEEE-754
//! encoding together with their decimal rendering.

pub mod number;
pub mod token;
pub mod expr;
pub mod stmt;
pub mod value;
pub mod environment;
pub mod interpreter;
pub mod scanner;
pub mod grammar;
pub mod parser;
pub mod runner;
pub mod laws;
