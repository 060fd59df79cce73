//! The `recall` tool — substring lookup over project memory.

use crate::json;
use crate::json::{Json, JsonView};
use crate::text;
use crate::tools::traits;
use crate::tools::traits::ToolResult;
use vstd::prelude::*;

verus! {

/// The number of results where none is asked for.
pub const DEFAULT_LIMIT: usize = 20;

/// The arguments of a call.
#[derive(Debug)]
pub struct RecallArgs {
    pub query: String,
    pub limit: Option<usize>,
}

/// A remembered fact.
#[derive(Debug, Clone)]
pub struct Recalled {
    pub timestamp: String,
    pub content: String,
}

/// The tool, over a memory of type `M`.
pub struct RecallTool<M> {
    memory: M,
}

/// A fact as one line.
pub open spec fn recalled_line(e: Recalled) -> Seq<char> {
    "["@ + e.timestamp@ + "] "@ + e.content@
}

/// What the tool says of the facts that matched.
pub open spec fn recalled_text(query: Seq<char>, entries: Seq<Recalled>) -> Seq<char> {
    if entries.len() == 0 {
        "No memories matched '"@ + query + "'."@
    } else {
        text::join(entries.map_values(|e: Recalled| recalled_line(e)), "\n"@)
    }
}

/// The JSON schema of the arguments.
pub open spec fn recall_schema() -> JsonView {
    JsonView::Object(
        seq![
            ("type"@, JsonView::Text("object"@)),
            (
                "properties"@,
                JsonView::Object(
                    seq![
                        (
                            "query"@,
                            JsonView::Object(
                                seq![
                                    ("type"@, JsonView::Text("string"@)),
                                    (
                                        "description"@,
                                        JsonView::Text(
                                            "Substring to search for. Case-insensitive."@,
                                        ),
                                    ),
                                ],
                            ),
                        ),
                        (
                            "limit"@,
                            JsonView::Object(
                                seq![
                                    ("type"@, JsonView::Text("integer"@)),
                                    ("description"@, JsonView::Text("Max results (default 20)."@)),
                                ],
                            ),
                        ),
                    ],
                ),
            ),
            ("required"@, JsonView::Array(seq![JsonView::Text("query"@)])),
        ],
    )
}

impl<M> RecallTool<M> {
    /// The memory that is searched.
    pub closed spec fn held_memory(&self) -> M {
        self.memory
    }

    pub fn new(memory: M) -> (r: Self)
        ensures
            r.held_memory() == memory,
    {
        RecallTool { memory }
    }

    /// The memory that is searched.
    pub fn memory(&self) -> (r: &M)
        ensures
            *r == self.held_memory(),
    {
        &self.memory
    }

    pub fn name(&self) -> (r: &'static str)
        ensures
            r@ == "recall"@,
    {
        "recall"
    }

    pub fn description(&self) -> (r: &'static str)
        ensures
            r@ == RECALL_DESCRIPTION@,
    {
        RECALL_DESCRIPTION
    }

    pub fn parameters_schema(&self) -> (r: Json)
        ensures
            r@ == recall_schema(),
    {
        let query = json::object2(
            "type",
            json::string("string"),
            "description",
            json::string("Substring to search for. Case-insensitive."),
        );
        let limit = json::object2(
            "type",
            json::string("integer"),
            "description",
            json::string("Max results (default 20)."),
        );
        json::object3(
            "type",
            json::string("object"),
            "properties",
            json::object2("query", query, "limit", limit),
            "required",
            json::array1(json::string("query")),
        )
    }

    /// How many facts the memory is asked for.
    pub fn limit(&self, args: &RecallArgs) -> (r: usize)
        ensures
            r == match args.limit {
                Some(n) => n,
                None => DEFAULT_LIMIT,
            },
    {
        match args.limit {
            Some(n) => n,
            None => DEFAULT_LIMIT,
        }
    }

    /// The result of a call, once the memory has been searched.
    pub fn finish(&self, args: &RecallArgs, entries: &[Recalled]) -> (r: ToolResult)
        ensures
            r@ == traits::success(recalled_text(args.query@, entries@)),
    {
        if entries.len() == 0 {
            let said = text::cat3("No memories matched '", args.query.as_str(), "'.");
            return ToolResult::succeeded(said);
        }
        let ghost wanted = entries@.map_values(|e: Recalled| recalled_line(e));
        let mut lines: Vec<String> = Vec::new();
        for i in 0..entries.len()
            invariant
                wanted == entries@.map_values(|e: Recalled| recalled_line(e)),
                text::views(lines@) == wanted.take(i as int),
        {
            let ghost before = text::views(lines@);
            let e = &entries[i];
            lines.push(text::cat4("[", e.timestamp.as_str(), "] ", e.content.as_str()));
            proof {
                assert(wanted[i as int] == recalled_line(*e));
                assert(text::views(lines@) =~= before.push(recalled_line(*e)));
                assert(wanted.take(i + 1) =~= before.push(recalled_line(*e)));
            }
        }
        proof {
            assert(wanted.take(wanted.len() as int) =~= wanted);
        }
        ToolResult::succeeded(text::joined(&lines, "\n"))
    }
}

/// What the tool is for.
pub const RECALL_DESCRIPTION: &'static str = "Look up remembered facts by substring match. Returns matching entries with their timestamps. Use when you need user preferences or past decisions. Do NOT use for searching files or code — use shell/grep for that instead.";

/// The error for arguments that cannot be read.
pub fn invalid_arguments(error: &str) -> (r: String)
    ensures
        r@ == "invalid arguments for recall: "@ + error@,
{
    text::cat2("invalid arguments for recall: ", error)
}

/// Every fact that matched is shown.
pub proof fn law_every_match_is_shown(query: Seq<char>, entries: Seq<Recalled>, i: int)
    requires
        0 <= i < entries.len(),
    ensures
        text::contains(recalled_text(query, entries), recalled_line(entries[i])),
{
    let lines = entries.map_values(|e: Recalled| recalled_line(e));
    text::lemma_contains_self(lines[i]);
    text::lemma_join_contains(lines, "\n"@, i, lines[i]);
}

/// A fact alone is shown with its time in brackets before it; facts are shown in
/// their order, each on a line of its own; and where none matched, the text says
/// what was looked for.
pub proof fn law_facts_stand_on_lines_of_their_own(
    query: Seq<char>,
    e: Recalled,
    a: Seq<Recalled>,
    b: Seq<Recalled>,
)
    requires
        a.len() > 0,
        b.len() > 0,
    ensures
        recalled_text(query, seq![e]) == "["@ + e.timestamp@ + "] "@ + e.content@,
        recalled_text(query, a + b) == recalled_text(query, a) + "\n"@ + recalled_text(query, b),
        recalled_text(query, Seq::<Recalled>::empty()) == "No memories matched '"@ + query + "'."@,
        DEFAULT_LIMIT == 20,
{
    let line = |e: Recalled| recalled_line(e);
    let one = seq![e].map_values(line);
    assert(one.drop_last() =~= Seq::<Seq<char>>::empty());
    assert(one[0] == recalled_line(e));
    assert((a + b).map_values(line) =~= a.map_values(line) + b.map_values(line));
    text::law_joining_puts_the_separator_between(a.map_values(line), b.map_values(line), "\n"@);
}

/// A call needs a query, which is a text; how many results it may give is a
/// number, and need not be said.
pub proof fn law_a_query_is_asked_for()
    ensures
        recall_schema().has("type"@, JsonView::Text("object"@)),
        recall_schema().has("required"@, JsonView::Array(seq![JsonView::Text("query"@)])),
        recall_schema().asks_for("query"@, "string"@),
        recall_schema().asks_for("limit"@, "integer"@),
{
    reveal_strlit("type");
    reveal_strlit("properties");
    reveal_strlit("required");
    reveal_strlit("query");
    reveal_strlit("limit");
    reveal_strlit("description");
    assert("type"@.len() == 4 && "properties"@.len() == 10 && "required"@.len() == 8);
    assert("query"@[0] == 'q' && "limit"@[0] == 'l');
    assert("description"@.len() == 11);
    let all = recall_schema()->Object_0;
    assert(all[0] == ("type"@, JsonView::Text("object"@)));
    assert(all[2] == ("required"@, JsonView::Array(seq![JsonView::Text("query"@)])));
    let props = all[1].1;
    assert(all[1] == ("properties"@, props));
    assert(recall_schema().has("properties"@, props));
    let fields = props->Object_0;
    let query = fields[0].1;
    let limit = fields[1].1;
    assert(fields[0] == ("query"@, query) && fields[1] == ("limit"@, limit));
    assert(props.has("query"@, query) && props.has("limit"@, limit));
    assert(query->Object_0[0] == ("type"@, JsonView::Text("string"@)));
    assert(limit->Object_0[0] == ("type"@, JsonView::Text("integer"@)));
}

} // verus!
