//! Skills: named instructions that an agent can load.

use vstd::prelude::*;

pub mod discovery;
pub mod refinement;

verus! {

/// A skill is a user-defined or community-built capability.
#[derive(Debug, Clone)]
pub struct Skill {
    pub name: String,
    pub description: String,
    pub version: String,
    pub author: Option<String>,
    pub tags: Vec<String>,
    /// The names of the tools that the skill brings.
    pub tools: Vec<String>,
    pub prompts: Vec<String>,
    /// The path of the file that the skill was loaded from.
    pub location: Option<String>,
}

} // verus!
