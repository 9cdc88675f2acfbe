//! Project-scoped TODO lists kept in a `.todo` file.
use vstd::prelude::*;

pub mod cli;
pub mod commands;
pub mod error;
pub mod format;
pub mod git;
pub mod laws;
pub mod project;
pub mod scan;
pub mod text;
pub mod todo;

verus! {

} // verus!
