//! What the MCP transports read and write.

use crate::json;
use crate::json::{Json, JsonView};
use crate::text;
use crate::tools::mcp_protocol::{
    JsonRpcRequest, JSONRPC_VERSION, PARSE_ERROR, PROGRAM_NAME, PROGRAM_VERSION,
};
use vstd::prelude::*;

verus! {

/// Whether a line of input holds nothing to answer.
pub fn is_blank(line: &str) -> (r: bool)
    ensures
        r == (text::trim(line@).len() == 0),
{
    text::trimmed(line).unicode_len() == 0
}

/// Whether a request is answered. Notifications are not.
pub fn wants_response(req: &JsonRpcRequest) -> (r: bool)
    ensures
        r == (req@.id is Some),
{
    req.id.is_some()
}

/// The response to a line that is not a request.
pub open spec fn parse_error_view(error: Seq<char>) -> JsonView {
    JsonView::Object(
        seq![
            ("jsonrpc"@, JsonView::Text(JSONRPC_VERSION@)),
            ("id"@, JsonView::Null),
            (
                "error"@,
                JsonView::Object(
                    seq![
                        ("code"@, JsonView::Int(PARSE_ERROR as i64)),
                        ("message"@, JsonView::Text("Parse error: "@ + error)),
                    ],
                ),
            ),
        ],
    )
}

/// The response to a line that is not a request.
pub fn parse_error_response(error: &str) -> (r: Json)
    ensures
        r@ == parse_error_view(error@),
{
    let message = text::cat2("Parse error: ", error);
    let inner = json::object2(
        "code",
        Json::Int(PARSE_ERROR as i64),
        "message",
        json::string(message.as_str()),
    );
    json::object3("jsonrpc", json::string(JSONRPC_VERSION), "id", Json::Null, "error", inner)
}

/// A value as a line of output.
pub fn output_line(value: &Json) -> (r: String)
    ensures
        r@ == json::json_text(value@) + "\n"@,
{
    text::cat2(json::to_text(value).as_str(), "\n")
}

/// What the health endpoint answers.
pub fn health_body() -> (r: Json)
    ensures
        r@ == JsonView::Object(
            seq![
                ("status"@, JsonView::Text("ok"@)),
                ("server"@, JsonView::Text(PROGRAM_NAME@)),
                ("version"@, JsonView::Text(PROGRAM_VERSION@)),
            ],
        ),
{
    json::object3(
        "status",
        json::string("ok"),
        "server",
        json::string(PROGRAM_NAME),
        "version",
        json::string(PROGRAM_VERSION),
    )
}

/// A line that is not a request is answered with the code of a parse error, under
/// no ID, and with a message that ends with why.
pub proof fn law_unreadable_lines_are_answered(error: Seq<char>)
    ensures
        parse_error_view(error).has("jsonrpc"@, JsonView::Text("2.0"@)),
        parse_error_view(error).has("id"@, JsonView::Null),
        exists|what: JsonView, message: Seq<char>|
            #![trigger parse_error_view(error).has("error"@, what), what.has("message"@, JsonView::Text(message))]
            {
                &&& parse_error_view(error).has("error"@, what)
                &&& what.has("code"@, JsonView::Int(-32700i64 as i64))
                &&& what.has("message"@, JsonView::Text(message))
                &&& text::has_prefix(message, "Parse error: "@)
                &&& text::has_suffix(message, error)
            },
{
    reveal_strlit("jsonrpc");
    reveal_strlit("id");
    reveal_strlit("error");
    reveal_strlit("code");
    reveal_strlit("message");
    assert("jsonrpc"@.len() == 7 && "id"@.len() == 2 && "error"@.len() == 5 && "code"@.len() == 4
        && "message"@.len() == 7);
    let all = parse_error_view(error)->Object_0;
    assert(all[0] == ("jsonrpc"@, JsonView::Text("2.0"@)));
    assert(all[1] == ("id"@, JsonView::Null));
    let what = all[2].1;
    assert(all[2] == ("error"@, what));
    let message = "Parse error: "@ + error;
    text::lemma_prefix("Parse error: "@, error);
    text::lemma_suffix("Parse error: "@, error);
    let fields = what->Object_0;
    assert(fields[0] == ("code"@, JsonView::Int(-32700i64 as i64)));
    assert(fields[1] == ("message"@, JsonView::Text(message)));
    assert(parse_error_view(error).has("error"@, what));
    assert(what.has("message"@, JsonView::Text(message)));
}

} // verus!
