use vstd::prelude::*;

pub mod bootstrap;
pub mod cli;
pub mod config;
pub mod dates;
pub mod numbers;
pub mod parser;
pub mod paths;
pub mod query;
pub mod refresh;
pub mod smartlist;
pub mod sorting;
pub mod store;
pub mod task;
pub mod text;
pub mod tui;

verus! {
} // verus!
