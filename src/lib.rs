//! A small source-code linter: it parses one Python file, runs a fixed set of
//! rules over the parsed text and reports each violation as a diagnostic.

pub mod cli;
pub mod diagnostic;
pub mod lint;
pub mod runner;
