//! PostToolUse prompt injection scanning hook.
//!
//! Scans tool execution results for prompt injection patterns before
//! the model processes them. Critical for weaker models (e.g. MiniMax)
//! that are more susceptible to injection via tool outputs.

use crate::text;
use crate::tools::traits::ToolResult;
use vstd::prelude::*;

verus! {

/// High-risk tools that are always scanned regardless of `watched_tools`.
///
/// These tools fetch external or user-controlled content that is the most
/// common vector for prompt injection attacks.
pub open spec fn is_high_risk(tool: Seq<char>) -> bool {
    ||| tool == "web_fetch"@
    ||| tool == "web_search_tool"@
    ||| tool == "http_request"@
    ||| tool == "text_browser"@
    ||| tool == "shell"@
    ||| tool == "file_read"@
    ||| tool == "content_search"@
}

fn has_high_risk(tool: &str) -> (r: bool)
    ensures
        r == is_high_risk(tool@),
{
    text::same_text(tool, "web_fetch")
        || text::same_text(tool, "web_search_tool")
        || text::same_text(tool, "http_request")
        || text::same_text(tool, "text_browser")
        || text::same_text(tool, "shell")
        || text::same_text(tool, "file_read")
        || text::same_text(tool, "content_search")
}

/// Hook that scans tool output for prompt injection before the LLM sees it.
/// `G` is the guard that does the scanning.
pub struct ToolOutputGuardHook<G> {
    guard: G,
    /// Tools whose output should be scanned (empty = scan all).
    watched_tools: Vec<String>,
}

/// The output of `tool` is scanned by a hook that watches `watched`.
pub open spec fn scans(watched: Seq<Seq<char>>, tool: Seq<char>) -> bool {
    ||| watched.len() == 0
    ||| is_high_risk(tool)
    ||| watched.contains(tool)
}

impl<G> ToolOutputGuardHook<G> {
    /// The tools that the hook watches.
    pub closed spec fn watched(&self) -> Seq<Seq<char>> {
        text::views(self.watched_tools@)
    }

    /// The guard that does the scanning.
    pub closed spec fn held_guard(&self) -> G {
        self.guard
    }

    /// Create a new guard hook that scans all tool outputs.
    pub fn new(guard: G) -> (r: Self)
        ensures
            r.held_guard() == guard,
            r.watched() == Seq::<Seq<char>>::empty(),
    {
        let r = ToolOutputGuardHook { guard, watched_tools: Vec::new() };
        proof {
            assert(r.watched() =~= Seq::<Seq<char>>::empty());
        }
        r
    }

    /// Create a guard hook that only scans specific tools (plus high-risk ones).
    pub fn with_watched_tools(guard: G, tools: Vec<String>) -> (r: Self)
        ensures
            r.held_guard() == guard,
            r.watched() == text::views(tools@),
    {
        ToolOutputGuardHook { guard, watched_tools: tools }
    }

    /// The guard that does the scanning.
    pub fn guard(&self) -> (r: &G)
        ensures
            *r == self.held_guard(),
    {
        &self.guard
    }

    /// Returns `true` if the output of `tool_name` should be scanned.
    ///
    /// A tool is scanned when:
    /// - `watched_tools` is empty (scan everything), OR
    /// - `tool_name` appears in `watched_tools`, OR
    /// - `tool_name` is one of the high-risk tools.
    pub fn should_scan(&self, tool_name: &str) -> (r: bool)
        ensures
            r == scans(self.watched(), tool_name@),
    {
        if self.watched_tools.len() == 0 {
            return true;
        }
        if has_high_risk(tool_name) {
            return true;
        }
        text::has_text(&self.watched_tools, tool_name)
    }

    pub fn name(&self) -> (r: &'static str)
        ensures
            r@ == "tool_output_guard"@,
    {
        "tool_output_guard"
    }

    pub fn priority(&self) -> (r: i32)
        ensures
            r == 100,
    {
        100
    }

    /// What of a tool's result goes to the guard: its output, where the tool is
    /// scanned and there is any.
    pub fn text_to_scan<'a>(&self, tool: &str, result: &'a ToolResult) -> (r: Option<&'a str>)
        ensures
            text::view_opt(r) == if scans(self.watched(), tool@) && result@.output.len() > 0 {
                Some(result@.output)
            } else {
                None
            },
    {
        if !self.should_scan(tool) {
            return None;
        }
        if result.output.unicode_len() == 0 {
            return None;
        }
        Some(result.output.as_str())
    }
}

/// A high-risk tool is scanned whatever the hook watches.
pub proof fn law_high_risk_tools_are_always_scanned(watched: Seq<Seq<char>>, tool: Seq<char>)
    requires
        is_high_risk(tool),
    ensures
        scans(watched, tool),
{
}

/// A hook that watches more tools scans no fewer, unless it watched all of them.
pub proof fn law_watching_more_scans_more(
    watched: Seq<Seq<char>>,
    more: Seq<char>,
    tool: Seq<char>,
)
    requires
        watched.len() > 0,
        scans(watched, tool),
    ensures
        scans(watched.push(more), tool),
{
    if watched.contains(tool) {
        let i = choose|i: int| 0 <= i < watched.len() && watched[i] == tool;
        assert(watched.push(more)[i] == tool);
    }
}

/// The output of a tool is scanned where the hook watches everything, where it
/// watches the tool, and where the tool brings in what others wrote; no other is.
pub proof fn law_scanned_tools(watched: Seq<Seq<char>>, tool: Seq<char>)
    ensures
        watched.len() == 0 ==> scans(watched, tool),
        watched.contains(tool) ==> scans(watched, tool),
        scans(watched, "web_fetch"@) && scans(watched, "web_search_tool"@) && scans(
            watched,
            "http_request"@,
        ) && scans(watched, "text_browser"@) && scans(watched, "shell"@) && scans(
            watched,
            "file_read"@,
        ) && scans(watched, "content_search"@),
        watched.len() > 0 && !watched.contains(tool) && tool != "web_fetch"@ && tool
            != "web_search_tool"@ && tool != "http_request"@ && tool != "text_browser"@ && tool
            != "shell"@ && tool != "file_read"@ && tool != "content_search"@ ==> !scans(
            watched,
            tool,
        ),
{
}

} // verus!
