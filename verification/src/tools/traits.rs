//! What every tool gives back.

use vstd::prelude::*;

verus! {

/// Result of a tool execution.
#[derive(Debug, Clone)]
pub struct ToolResult {
    pub success: bool,
    pub output: String,
    pub error: Option<String>,
}

/// What a tool result says.
#[verifier::ext_equal]
pub struct ToolResultView {
    pub success: bool,
    pub output: Seq<char>,
    pub error: Option<Seq<char>>,
}

impl View for ToolResult {
    type V = ToolResultView;

    open spec fn view(&self) -> ToolResultView {
        ToolResultView {
            success: self.success,
            output: self.output@,
            error: match self.error {
                Some(e) => Some(e@),
                None => None,
            },
        }
    }
}

/// A failure without output.
pub open spec fn failure(error: Seq<char>) -> ToolResultView {
    ToolResultView { success: false, output: Seq::<char>::empty(), error: Some(error) }
}

/// A success without an error.
pub open spec fn success(output: Seq<char>) -> ToolResultView {
    ToolResultView { success: true, output, error: None }
}

impl ToolResult {
    /// A failure without output.
    pub fn failed(error: String) -> (r: ToolResult)
        ensures
            r@ == failure(error@),
    {
        let output = String::new();
        proof {
            assert(output@ =~= Seq::<char>::empty());
        }
        ToolResult { success: false, output, error: Some(error) }
    }

    /// A success without an error.
    pub fn succeeded(output: String) -> (r: ToolResult)
        ensures
            r@ == success(output@),
    {
        ToolResult { success: true, output, error: None }
    }
}

/// A success carries the output alone, a failure the error alone.
pub proof fn law_outcomes_carry_their_text(said: Seq<char>)
    ensures
        success(said).success && success(said).output == said && success(said).error is None,
        !failure(said).success && failure(said).error == Some(said) && failure(said).output.len()
            == 0,
{
}

} // verus!
