use vstd::prelude::*;

pub mod analyzer;
pub mod assets;
pub mod assoc;
pub mod benchmark;
pub mod config;
pub mod debug;
pub mod export;
pub mod extraction;
pub mod heuristics;
pub mod language;
pub mod laws;
pub mod model;
pub mod resolver;
pub mod syntax;
pub mod text_util;

verus! {
} // verus!
