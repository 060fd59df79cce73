//! Parts of the configuration that other modules decide by.

use vstd::prelude::*;

verus! {

/// Automatic query classification: user messages are matched against rules,
/// and the hint of the matching rule picks the model.
#[derive(Debug, Clone)]
pub struct QueryClassificationConfig {
    /// Enable automatic query classification.
    pub enabled: bool,
    /// Classification rules.
    pub rules: Vec<ClassificationRule>,
}

/// A single classification rule mapping message patterns to a model hint.
#[derive(Debug, Clone)]
pub struct ClassificationRule {
    /// The hint that a match gives.
    pub hint: String,
    /// Case-insensitive substring matches.
    pub keywords: Vec<String>,
    /// Case-sensitive literal matches.
    pub patterns: Vec<String>,
    /// Only match if the message takes at least so many bytes.
    pub min_length: Option<usize>,
    /// Only match if the message takes at most so many bytes.
    pub max_length: Option<usize>,
    /// Higher priority rules are checked first.
    pub priority: i32,
}

impl Default for ClassificationRule {
    fn default() -> (r: Self)
        ensures
            r.hint@ == Seq::<char>::empty(),
            r.keywords@.len() == 0,
            r.patterns@.len() == 0,
            r.min_length is None,
            r.max_length is None,
            r.priority == 0,
    {
        let hint = String::new();
        proof {
            assert(hint@ =~= Seq::<char>::empty());
        }
        ClassificationRule {
            hint,
            keywords: Vec::new(),
            patterns: Vec::new(),
            min_length: None,
            max_length: None,
            priority: 0,
        }
    }
}

} // verus!
