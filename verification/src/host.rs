//! The command-line front end: arguments, diagnostics, and the decisions of a run.

pub mod args;
pub mod args_laws;
pub mod error;
pub mod run;
