//! Output formats generated from a workflow.
use vstd::prelude::*;

pub mod toml_emit;
pub mod knots_bundle;

verus! {

/// A target language for code generation.
#[derive(Debug, Clone, Copy, PartialEq, Eq, Structural)]
pub enum CodegenTarget {
    Rust,
    Go,
    Python,
}

} // verus!
