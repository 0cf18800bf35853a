//! The package configuration, `loom.toml`.
use vstd::prelude::*;

verus! {

/// The contents of `loom.toml`.
#[derive(Debug)]
pub struct LoomConfig {
    pub workflow: WorkflowConfig,
}

/// The `[workflow]` table.
#[derive(Debug)]
pub struct WorkflowConfig {
    pub name: String,
    pub version: u32,
    pub entry: String,
    pub default_profile: Option<String>,
}

/// The entry file when `loom.toml` names none.
pub fn default_entry() -> (r: String)
    ensures
        r@ == "workflow.loom"@,
{
    String::from_str("workflow.loom")
}

} // verus!
