//! JSON-RPC request handlers for the MCP server.

use crate::json;
use crate::json::{Json, JsonView};
use crate::text;
use crate::tools::mcp_protocol;
use crate::tools::mcp_protocol::{
    ErrorView, JsonRpcError, JsonRpcRequest, JsonRpcResponse, RequestView, ResponseView,
    INVALID_PARAMS, JSONRPC_VERSION, MCP_PROTOCOL_VERSION, METHOD_NOT_FOUND, PROGRAM_NAME,
    PROGRAM_VERSION,
};
use crate::tools::traits::{ToolResult, ToolResultView};
use vstd::prelude::*;

verus! {

/// A tool that the server offers.
pub struct ToolInfo {
    pub name: String,
    pub description: String,
    pub parameters_schema: Json,
}

/// What is known of a tool.
#[verifier::ext_equal]
pub struct ToolInfoView {
    pub name: Seq<char>,
    pub description: Seq<char>,
    pub parameters_schema: JsonView,
}

impl View for ToolInfo {
    type V = ToolInfoView;

    open spec fn view(&self) -> ToolInfoView {
        ToolInfoView {
            name: self.name@,
            description: self.description@,
            parameters_schema: self.parameters_schema@,
        }
    }
}

/// What is known of the tools.
pub open spec fn tool_views(tools: Seq<ToolInfo>) -> Seq<ToolInfoView> {
    tools.map_values(|t: ToolInfo| t@)
}

/// What becomes of a request.
pub enum Handled {
    /// The response is known.
    Reply(JsonRpcResponse),
    /// The tool in the given place is to be run with these arguments; what it
    /// gives back goes to `finish_tools_call`.
    Call { tool: usize, arguments: Json },
}

/// What becomes of a request.
#[verifier::ext_equal]
pub enum HandledView {
    Reply(ResponseView),
    Call { tool: int, arguments: JsonView },
}

impl View for Handled {
    type V = HandledView;

    open spec fn view(&self) -> HandledView {
        match self {
            Handled::Reply(r) => HandledView::Reply(r@),
            Handled::Call { tool, arguments } => HandledView::Call {
                tool: *tool as int,
                arguments: arguments@,
            },
        }
    }
}

// ---------------------------------------------------------------------------
// Responses
// ---------------------------------------------------------------------------

/// The response that gives a result.
pub open spec fn result_of(req: RequestView, result: JsonView) -> ResponseView {
    ResponseView { jsonrpc: JSONRPC_VERSION@, id: req.id, result: Some(result), error: None }
}

/// The response that refuses a request.
pub open spec fn refusal_of(req: RequestView, code: i32, message: Seq<char>) -> ResponseView {
    ResponseView {
        jsonrpc: JSONRPC_VERSION@,
        id: req.id,
        result: None,
        error: Some(ErrorView { code, message, data: None }),
    }
}

fn result_response(req: &JsonRpcRequest, result: Json) -> (r: JsonRpcResponse)
    ensures
        r@ == result_of(req@, result@),
{
    JsonRpcResponse {
        jsonrpc: JSONRPC_VERSION.to_string(),
        id: mcp_protocol::copied_opt(&req.id),
        result: Some(result),
        error: None,
    }
}

fn error_response(req: &JsonRpcRequest, code: i32, message: &str) -> (r: JsonRpcResponse)
    ensures
        r@ == refusal_of(req@, code, message@),
{
    JsonRpcResponse {
        jsonrpc: JSONRPC_VERSION.to_string(),
        id: mcp_protocol::copied_opt(&req.id),
        result: None,
        error: Some(JsonRpcError { code, message: message.to_string(), data: None }),
    }
}

/// The response to a notification, which is not sent.
pub open spec fn acknowledgement() -> ResponseView {
    ResponseView { jsonrpc: JSONRPC_VERSION@, id: None, result: None, error: None }
}

/// Notifications don't get responses, but there is an empty one for the router.
pub fn notification_ack() -> (r: JsonRpcResponse)
    ensures
        r@ == acknowledgement(),
{
    JsonRpcResponse { jsonrpc: JSONRPC_VERSION.to_string(), id: None, result: None, error: None }
}

// ---------------------------------------------------------------------------
// Methods
// ---------------------------------------------------------------------------

/// What the server says of itself.
pub open spec fn initialize_result() -> JsonView {
    let nothing = JsonView::Object(Seq::<(Seq<char>, JsonView)>::empty());
    JsonView::Object(
        seq![
            ("protocolVersion"@, JsonView::Text(MCP_PROTOCOL_VERSION@)),
            (
                "serverInfo"@,
                JsonView::Object(
                    seq![
                        ("name"@, JsonView::Text(PROGRAM_NAME@)),
                        ("version"@, JsonView::Text(PROGRAM_VERSION@)),
                    ],
                ),
            ),
            (
                "capabilities"@,
                JsonView::Object(
                    seq![("tools"@, nothing), ("resources"@, nothing), ("prompts"@, nothing)],
                ),
            ),
        ],
    )
}

pub fn handle_initialize(req: &JsonRpcRequest) -> (r: JsonRpcResponse)
    ensures
        r@ == result_of(req@, initialize_result()),
{
    let server = json::object2(
        "name",
        json::string(PROGRAM_NAME),
        "version",
        json::string(PROGRAM_VERSION),
    );
    let capabilities = json::object3(
        "tools",
        json::object0(),
        "resources",
        json::object0(),
        "prompts",
        json::object0(),
    );
    let result = json::object3(
        "protocolVersion",
        json::string(MCP_PROTOCOL_VERSION),
        "serverInfo",
        server,
        "capabilities",
        capabilities,
    );
    result_response(req, result)
}

/// A tool as the list shows it.
pub open spec fn shown_tool(t: ToolInfoView) -> JsonView {
    JsonView::Object(
        seq![
            ("name"@, JsonView::Text(t.name)),
            ("description"@, JsonView::Text(t.description)),
            ("inputSchema"@, t.parameters_schema),
        ],
    )
}

/// The tools as a list.
pub open spec fn tools_list_result(tools: Seq<ToolInfoView>) -> JsonView {
    JsonView::Object(
        seq![("tools"@, JsonView::Array(tools.map_values(|t: ToolInfoView| shown_tool(t))))],
    )
}

pub fn handle_tools_list(req: &JsonRpcRequest, tools: &[ToolInfo]) -> (r: JsonRpcResponse)
    ensures
        r@ == result_of(req@, tools_list_result(tool_views(tools@))),
{
    let ghost wanted = tool_views(tools@).map_values(|t: ToolInfoView| shown_tool(t));
    let mut defs: Vec<Json> = Vec::new();
    for i in 0..tools.len()
        invariant
            wanted == tool_views(tools@).map_values(|t: ToolInfoView| shown_tool(t)),
            json::views(defs@) == wanted.take(i as int),
    {
        let ghost before = json::views(defs@);
        let t = &tools[i];
        defs.push(
            json::object3(
                "name",
                json::string(t.name.as_str()),
                "description",
                json::string(t.description.as_str()),
                "inputSchema",
                t.parameters_schema.copied(),
            ),
        );
        proof {
            assert(wanted[i as int] == shown_tool(t@));
            assert(json::views(defs@) =~= before.push(shown_tool(t@)));
            assert(wanted.take(i + 1) =~= before.push(shown_tool(t@)));
        }
    }
    proof {
        assert(wanted.take(wanted.len() as int) =~= wanted);
    }
    result_response(req, json::object1("tools", json::array(defs)))
}

/// The place of the first tool of the given name.
pub open spec fn place_of(tools: Seq<ToolInfoView>, name: Seq<char>) -> Option<int>
    decreases tools.len(),
{
    if tools.len() == 0 {
        None
    } else if tools[0].name == name {
        Some(0int)
    } else {
        match place_of(tools.skip(1), name) {
            Some(i) => Some(i + 1),
            None => None,
        }
    }
}

fn find_tool(tools: &[ToolInfo], name: &str) -> (r: Option<usize>)
    ensures
        match r {
            Some(i) => place_of(tool_views(tools@), name@) == Some(i as int) && i < tools@.len(),
            None => place_of(tool_views(tools@), name@) is None,
        },
{
    let ghost all = tool_views(tools@);
    proof {
        assert(all.skip(0) =~= all);
    }
    for i in 0..tools.len()
        invariant
            all == tool_views(tools@),
            match place_of(all.skip(i as int), name@) {
                Some(k) => place_of(all, name@) == Some(k + i),
                None => place_of(all, name@) is None,
            },
    {
        proof {
            assert(all.skip(i as int)[0] == tools@[i as int]@);
            assert(all.skip(i as int).skip(1) =~= all.skip(i + 1));
        }
        if text::same_text(tools[i].name.as_str(), name) {
            return Some(i);
        }
    }
    None
}

/// The name of the tool in the parameters of a call; empty where there is none.
pub open spec fn called_name(params: JsonView) -> Seq<char> {
    match params.text_at("name"@) {
        Some(name) => name,
        None => Seq::<char>::empty(),
    }
}

/// The arguments in the parameters of a call; none where there are none.
pub open spec fn called_arguments(params: JsonView) -> JsonView {
    match params.get("arguments"@) {
        Some(a) => a,
        None => JsonView::Object(Seq::<(Seq<char>, JsonView)>::empty()),
    }
}

/// What becomes of a request to call a tool.
pub open spec fn tools_call(req: RequestView, tools: Seq<ToolInfoView>) -> HandledView {
    match req.params {
        None => HandledView::Reply(refusal_of(req, INVALID_PARAMS, "Missing params"@)),
        Some(params) => {
            let name = called_name(params);
            match place_of(tools, name) {
                Some(i) => HandledView::Call { tool: i, arguments: called_arguments(params) },
                None => HandledView::Reply(
                    refusal_of(req, METHOD_NOT_FOUND, "Unknown tool: "@ + name),
                ),
            }
        },
    }
}

pub fn handle_tools_call(req: &JsonRpcRequest, tools: &[ToolInfo]) -> (r: Handled)
    ensures
        r@ == tools_call(req@, tool_views(tools@)),
        r matches Handled::Call { tool, .. } ==> tool < tools@.len(),
{
    let params = match &req.params {
        Some(p) => p,
        None => {
            return Handled::Reply(error_response(req, INVALID_PARAMS, "Missing params"));
        },
    };
    proof {
        reveal_strlit("");
        assert(""@ =~= Seq::<char>::empty());
    }
    let name = match params.text_at("name") {
        Some(name) => name,
        None => "",
    };
    match find_tool(tools, name) {
        Some(tool) => {
            let arguments = match params.get("arguments") {
                Some(a) => a.copied(),
                None => json::object0(),
            };
            Handled::Call { tool, arguments }
        },
        None => {
            let message = text::cat2("Unknown tool: ", name);
            Handled::Reply(error_response(req, METHOD_NOT_FOUND, message.as_str()))
        },
    }
}

/// What a tool said, as the result of a call.
pub open spec fn content_result(said: Seq<char>, is_error: bool) -> JsonView {
    JsonView::Object(
        seq![
            (
                "content"@,
                JsonView::Array(
                    seq![
                        JsonView::Object(
                            seq![
                                ("type"@, JsonView::Text("text"@)),
                                ("text"@, JsonView::Text(said)),
                            ],
                        ),
                    ],
                ),
            ),
            ("isError"@, JsonView::Bool(is_error)),
        ],
    )
}

fn content(said: &str, is_error: bool) -> (r: Json)
    ensures
        r@ == content_result(said@, is_error),
{
    let item = json::object2("type", json::string("text"), "text", json::string(said));
    json::object2("content", json::array1(item), "isError", Json::Bool(is_error))
}

/// What a tool gave back, as the result of a call. A tool that failed to run is
/// an error like one that says so.
pub open spec fn outcome_result(outcome: Result<ToolResultView, Seq<char>>) -> JsonView {
    match outcome {
        Ok(t) => content_result(t.output, !t.success),
        Err(e) => content_result("Error: "@ + e, true),
    }
}

/// The response to a call, once the tool has run.
pub fn finish_tools_call(req: &JsonRpcRequest, outcome: &Result<ToolResult, String>) -> (r:
    JsonRpcResponse)
    ensures
        r@ == result_of(
            req@,
            outcome_result(
                match outcome {
                    Ok(t) => Ok(t@),
                    Err(e) => Err(e@),
                },
            ),
        ),
{
    let result = match outcome {
        Ok(t) => content(t.output.as_str(), !t.success),
        Err(e) => content(text::cat2("Error: ", e.as_str()).as_str(), true),
    };
    result_response(req, result)
}

/// The URI of the resource that tells the version.
pub const VERSION_URI: &'static str = "zeroclaw://version";

/// The resources as a list.
pub open spec fn resources_list_result() -> JsonView {
    JsonView::Object(
        seq![
            (
                "resources"@,
                JsonView::Array(
                    seq![
                        JsonView::Object(
                            seq![
                                ("uri"@, JsonView::Text(VERSION_URI@)),
                                ("name"@, JsonView::Text("ZeroClaw Version"@)),
                                (
                                    "description"@,
                                    JsonView::Text("Current ZeroClaw version and build info"@),
                                ),
                                ("mimeType"@, JsonView::Text("application/json"@)),
                            ],
                        ),
                    ],
                ),
            ),
        ],
    )
}

pub fn handle_resources_list(req: &JsonRpcRequest) -> (r: JsonRpcResponse)
    ensures
        r@ == result_of(req@, resources_list_result()),
{
    let version = json::object4(
        "uri",
        json::string(VERSION_URI),
        "name",
        json::string("ZeroClaw Version"),
        "description",
        json::string("Current ZeroClaw version and build info"),
        "mimeType",
        json::string("application/json"),
    );
    result_response(req, json::object1("resources", json::array1(version)))
}

/// The URI that a request asks for; empty where there is none.
pub open spec fn asked_uri(req: RequestView) -> Seq<char> {
    match req.params {
        Some(params) => match params.text_at("uri"@) {
            Some(uri) => uri,
            None => Seq::<char>::empty(),
        },
        None => Seq::<char>::empty(),
    }
}

/// What the version resource holds.
pub open spec fn version_info() -> JsonView {
    JsonView::Object(
        seq![
            ("version"@, JsonView::Text(PROGRAM_VERSION@)),
            ("name"@, JsonView::Text(PROGRAM_NAME@)),
        ],
    )
}

/// A resource that was read.
pub open spec fn resource_result(uri: Seq<char>, said: Seq<char>) -> JsonView {
    JsonView::Object(
        seq![
            (
                "contents"@,
                JsonView::Array(
                    seq![
                        JsonView::Object(
                            seq![
                                ("uri"@, JsonView::Text(uri)),
                                ("mimeType"@, JsonView::Text("application/json"@)),
                                ("text"@, JsonView::Text(said)),
                            ],
                        ),
                    ],
                ),
            ),
        ],
    )
}

/// The response to a request for a resource.
pub open spec fn resources_read(req: RequestView) -> ResponseView {
    let uri = asked_uri(req);
    if uri == VERSION_URI@ {
        result_of(req, resource_result(uri, json::json_text(version_info())))
    } else {
        refusal_of(req, INVALID_PARAMS, "Unknown resource: "@ + uri)
    }
}

pub fn handle_resources_read(req: &JsonRpcRequest) -> (r: JsonRpcResponse)
    ensures
        r@ == resources_read(req@),
{
    proof {
        reveal_strlit("");
        assert(""@ =~= Seq::<char>::empty());
    }
    let uri = match &req.params {
        Some(params) => match params.text_at("uri") {
            Some(uri) => uri,
            None => "",
        },
        None => "",
    };
    if !text::same_text(uri, VERSION_URI) {
        let message = text::cat2("Unknown resource: ", uri);
        return error_response(req, INVALID_PARAMS, message.as_str());
    }
    let info = json::object2(
        "version",
        json::string(PROGRAM_VERSION),
        "name",
        json::string(PROGRAM_NAME),
    );
    let said = json::to_text(&info);
    let item = json::object3(
        "uri",
        json::string(uri),
        "mimeType",
        json::string("application/json"),
        "text",
        json::string(said.as_str()),
    );
    result_response(req, json::object1("contents", json::array1(item)))
}

/// The prompts as a list: there are none.
pub open spec fn prompts_list_result() -> JsonView {
    JsonView::Object(seq![("prompts"@, JsonView::Array(Seq::<JsonView>::empty()))])
}

pub fn handle_prompts_list(req: &JsonRpcRequest) -> (r: JsonRpcResponse)
    ensures
        r@ == result_of(req@, prompts_list_result()),
{
    let none: Vec<Json> = Vec::new();
    proof {
        assert(json::views(none@) =~= Seq::<JsonView>::empty());
    }
    result_response(req, json::object1("prompts", json::array(none)))
}

pub fn handle_prompts_get(req: &JsonRpcRequest) -> (r: JsonRpcResponse)
    ensures
        r@ == refusal_of(req@, INVALID_PARAMS, "No prompts available"@),
{
    error_response(req, INVALID_PARAMS, "No prompts available")
}

fn method_not_found(req: &JsonRpcRequest) -> (r: JsonRpcResponse)
    ensures
        r@ == refusal_of(req@, METHOD_NOT_FOUND, "Unknown method: "@ + req@.method),
{
    let message = text::cat2("Unknown method: ", req.method.as_str());
    error_response(req, METHOD_NOT_FOUND, message.as_str())
}

// ---------------------------------------------------------------------------
// Routing
// ---------------------------------------------------------------------------

/// What becomes of a request.
pub open spec fn handled(req: RequestView, tools: Seq<ToolInfoView>) -> HandledView {
    if req.method == "initialize"@ {
        HandledView::Reply(result_of(req, initialize_result()))
    } else if req.method == "notifications/initialized"@ {
        HandledView::Reply(acknowledgement())
    } else if req.method == "tools/list"@ {
        HandledView::Reply(result_of(req, tools_list_result(tools)))
    } else if req.method == "tools/call"@ {
        tools_call(req, tools)
    } else if req.method == "resources/list"@ {
        HandledView::Reply(result_of(req, resources_list_result()))
    } else if req.method == "resources/read"@ {
        HandledView::Reply(resources_read(req))
    } else if req.method == "prompts/list"@ {
        HandledView::Reply(result_of(req, prompts_list_result()))
    } else if req.method == "prompts/get"@ {
        HandledView::Reply(refusal_of(req, INVALID_PARAMS, "No prompts available"@))
    } else {
        HandledView::Reply(refusal_of(req, METHOD_NOT_FOUND, "Unknown method: "@ + req.method))
    }
}

/// Route a JSON-RPC request to the appropriate handler.
pub fn handle_request(req: &JsonRpcRequest, tools: &[ToolInfo]) -> (r: Handled)
    ensures
        r@ == handled(req@, tool_views(tools@)),
        r matches Handled::Call { tool, .. } ==> tool < tools@.len(),
{
    let method = req.method.as_str();
    if text::same_text(method, "initialize") {
        Handled::Reply(handle_initialize(req))
    } else if text::same_text(method, "notifications/initialized") {
        Handled::Reply(notification_ack())
    } else if text::same_text(method, "tools/list") {
        Handled::Reply(handle_tools_list(req, tools))
    } else if text::same_text(method, "tools/call") {
        handle_tools_call(req, tools)
    } else if text::same_text(method, "resources/list") {
        Handled::Reply(handle_resources_list(req))
    } else if text::same_text(method, "resources/read") {
        Handled::Reply(handle_resources_read(req))
    } else if text::same_text(method, "prompts/list") {
        Handled::Reply(handle_prompts_list(req))
    } else if text::same_text(method, "prompts/get") {
        Handled::Reply(handle_prompts_get(req))
    } else {
        Handled::Reply(method_not_found(req))
    }
}

// ---------------------------------------------------------------------------
// Laws
// ---------------------------------------------------------------------------

/// The response to a request carries its ID, and either a result or an error;
/// that of the notification that the client is ready carries nothing.
pub proof fn law_response_answers_its_request(req: RequestView, tools: Seq<ToolInfoView>)
    ensures
        match handled(req, tools) {
            HandledView::Reply(r) => {
                &&& r.jsonrpc == JSONRPC_VERSION@
                &&& if req.method == "notifications/initialized"@ {
                    r == acknowledgement()
                } else {
                    r.id == req.id && (r.result is Some <==> r.error is None)
                }
            },
            HandledView::Call { .. } => req.method == "tools/call"@,
        },
{
    reveal_strlit("initialize");
    reveal_strlit("notifications/initialized");
}

/// The tool that is run is one that the server lists, under the name that was
/// asked for.
pub proof fn law_called_tool_is_listed(req: RequestView, tools: Seq<ToolInfoView>)
    requires
        handled(req, tools) is Call,
    ensures
        0 <= handled(req, tools)->tool < tools.len(),
        req.params is Some,
        tools[handled(req, tools)->tool].name == called_name(req.params->0),
{
    lemma_place(tools, called_name(req.params->0));
}

proof fn lemma_place(tools: Seq<ToolInfoView>, name: Seq<char>)
    ensures
        match place_of(tools, name) {
            Some(i) => 0 <= i < tools.len() && tools[i].name == name,
            None => forall|k: int| 0 <= k < tools.len() ==> (#[trigger] tools[k]).name != name,
        },
    decreases tools.len(),
{
    if tools.len() > 0 && tools[0].name != name {
        let rest = tools.skip(1);
        lemma_place(rest, name);
        if place_of(rest, name) is None {
            assert forall|k: int| 0 <= k < tools.len() implies (#[trigger] tools[k]).name
                != name by {
                if k > 0 {
                    assert(tools[k] == rest[k - 1]);
                }
            }
        }
    }
}

/// A call of a tool that the server lists is never refused as unknown.
pub proof fn law_listed_tool_can_be_called(req: RequestView, tools: Seq<ToolInfoView>, i: int)
    requires
        0 <= i < tools.len(),
        req.method == "tools/call"@,
        req.params is Some,
        called_name(req.params->0) == tools[i].name,
    ensures
        handled(req, tools) is Call,
{
    lemma_place(tools, tools[i].name);
    reveal_strlit("tools/call");
    reveal_strlit("initialize");
    reveal_strlit("notifications/initialized");
    reveal_strlit("tools/list");
    assert("tools/call"@[6] == 'c');
    assert("tools/list"@[6] == 'l');
}

// The methods of the protocol are told apart by their names.
proof fn lemma_methods()
    ensures
        "initialize"@ != "notifications/initialized"@,
        "initialize"@ != "tools/list"@,
        "initialize"@ != "tools/call"@,
        "initialize"@ != "resources/list"@,
        "initialize"@ != "resources/read"@,
        "initialize"@ != "prompts/list"@,
        "initialize"@ != "prompts/get"@,
        "notifications/initialized"@ != "tools/list"@,
        "notifications/initialized"@ != "tools/call"@,
        "notifications/initialized"@ != "resources/list"@,
        "notifications/initialized"@ != "resources/read"@,
        "notifications/initialized"@ != "prompts/list"@,
        "notifications/initialized"@ != "prompts/get"@,
        "tools/list"@ != "tools/call"@,
        "tools/list"@ != "resources/list"@,
        "tools/list"@ != "resources/read"@,
        "tools/list"@ != "prompts/list"@,
        "tools/list"@ != "prompts/get"@,
        "tools/call"@ != "resources/list"@,
        "tools/call"@ != "resources/read"@,
        "tools/call"@ != "prompts/list"@,
        "tools/call"@ != "prompts/get"@,
        "resources/list"@ != "resources/read"@,
        "resources/list"@ != "prompts/list"@,
        "resources/list"@ != "prompts/get"@,
        "resources/read"@ != "prompts/list"@,
        "resources/read"@ != "prompts/get"@,
        "prompts/list"@ != "prompts/get"@,
{
    reveal_strlit("initialize");
    assert("initialize"@.len() == 10);
    reveal_strlit("notifications/initialized");
    assert("notifications/initialized"@.len() == 25);
    reveal_strlit("tools/list");
    assert("tools/list"@.len() == 10);
    reveal_strlit("tools/call");
    assert("tools/call"@.len() == 10);
    reveal_strlit("resources/list");
    assert("resources/list"@.len() == 14);
    reveal_strlit("resources/read");
    assert("resources/read"@.len() == 14);
    reveal_strlit("prompts/list");
    assert("prompts/list"@.len() == 12);
    reveal_strlit("prompts/get");
    assert("prompts/get"@.len() == 11);
    assert("initialize"@[0] == 'i');
    assert("tools/list"@[0] == 't');
    assert("tools/call"@[0] == 't');
    assert("tools/list"@[6] == 'l');
    assert("tools/call"@[6] == 'c');
    assert("resources/list"@[10] == 'l');
    assert("resources/read"@[10] == 'r');
}

/// The result that the request with the given ID is answered with, where it is.
pub open spec fn answered(answer: HandledView, id: Option<JsonView>) -> Option<JsonView> {
    match answer {
        HandledView::Reply(r) => if r.id == id && r.error is None {
            r.result
        } else {
            None
        },
        HandledView::Call { .. } => None,
    }
}

/// A list of tools names every tool that is offered, in order: an entry has the
/// name, the description and the schema of its tool.
pub proof fn law_tools_list_tells_of_every_tool(req: RequestView, tools: Seq<ToolInfoView>)
    requires
        req.method == "tools/list"@,
    ensures
        answered(handled(req, tools), req.id) matches Some(result) && exists|items: Seq<JsonView>|
            {
                &&& #[trigger] result.has("tools"@, JsonView::Array(items))
                &&& items.len() == tools.len()
                &&& forall|i: int|
                    0 <= i < items.len() ==> (#[trigger] items[i]).has(
                        "name"@,
                        JsonView::Text(tools[i].name),
                    ) && items[i].has("description"@, JsonView::Text(tools[i].description))
                        && items[i].has("inputSchema"@, tools[i].parameters_schema)
            },
{
    lemma_methods();
    let r = handled(req, tools)->Reply_0;
    let result = r.result->0;
    let items = tools.map_values(|t: ToolInfoView| shown_tool(t));
    assert(result->Object_0[0] == ("tools"@, JsonView::Array(items)));
    assert(result.has("tools"@, JsonView::Array(items)));
    reveal_strlit("name");
    assert("name"@.len() == 4);
    reveal_strlit("description");
    assert("description"@.len() == 11);
    reveal_strlit("inputSchema");
    assert("inputSchema"@.len() == 11);
    assert("description"@[0] == 'd');
    assert("inputSchema"@[0] == 'i');
    assert forall|i: int| 0 <= i < items.len() implies (#[trigger] items[i]).has(
        "name"@,
        JsonView::Text(tools[i].name),
    ) && items[i].has("description"@, JsonView::Text(tools[i].description)) && items[i].has(
        "inputSchema"@,
        tools[i].parameters_schema,
    ) by {
        let t = tools[i];
        assert(items[i] == shown_tool(t));
        let m = items[i]->Object_0;
        assert(m[0] == ("name"@, JsonView::Text(t.name)));
        assert(m[1] == ("description"@, JsonView::Text(t.description)));
        assert(m[2] == ("inputSchema"@, t.parameters_schema));
    }
}

/// What a client reads: a request for the resource `uri`.
pub open spec fn reads(req: RequestView, uri: Seq<char>) -> bool {
    &&& req.method == "resources/read"@
    &&& req.params matches Some(params) && params.text_at("uri"@) == Some(uri)
}

/// A list of resources can be followed: each entry has a URI, and a request to
/// read that URI is answered with contents that carry the same URI and the same
/// type. Any other URI is refused as a wrong parameter.
pub proof fn law_listed_resources_can_be_read(
    list: RequestView,
    read: RequestView,
    uri: Seq<char>,
    tools: Seq<ToolInfoView>,
)
    requires
        list.method == "resources/list"@,
        reads(read, uri),
    ensures
        answered(handled(list, tools), list.id) matches Some(listed) && exists|items: Seq<JsonView>|
            {
                &&& #[trigger] listed.has("resources"@, JsonView::Array(items))
                &&& items.len() > 0
                &&& forall|i: int|
                    0 <= i < items.len() && (#[trigger] items[i]).has("uri"@, JsonView::Text(uri))
                        ==> items[i].has("mimeType"@, JsonView::Text("application/json"@))
                        && is_readable(handled(read, tools), read.id, uri)
                &&& (forall|i: int|
                    0 <= i < items.len() ==> !(#[trigger] items[i]).has(
                        "uri"@,
                        JsonView::Text(uri),
                    )) ==> is_refused(handled(read, tools), read.id, -32602)
            },
{
    lemma_methods();
    let l = handled(list, tools)->Reply_0;
    let listed = l.result->0;
    let items = listed->Object_0[0].1->Array_0;
    assert(listed->Object_0[0] == ("resources"@, JsonView::Array(items)));
    assert(listed.has("resources"@, JsonView::Array(items)));
    reveal_strlit("uri");
    assert("uri"@.len() == 3);
    reveal_strlit("name");
    assert("name"@.len() == 4);
    reveal_strlit("description");
    assert("description"@.len() == 11);
    reveal_strlit("mimeType");
    assert("mimeType"@.len() == 8);
    reveal_strlit("text");
    assert("text"@.len() == 4);
    assert("name"@[0] == 'n');
    assert("text"@[0] == 't');
    let m = items[0]->Object_0;
    assert(m[0] == ("uri"@, JsonView::Text(VERSION_URI@)));
    assert(m[1].0 == "name"@);
    assert(m[2].0 == "description"@);
    assert(m[3] == ("mimeType"@, JsonView::Text("application/json"@)));
    assert(m.len() == 4);
    assert(items[0].has("mimeType"@, JsonView::Text("application/json"@)));
    assert(items[0].has("uri"@, JsonView::Text(VERSION_URI@)));
    if uri == VERSION_URI@ {
        let result = handled(read, tools)->Reply_0.result->0;
        let contents = result->Object_0[0].1->Array_0;
        assert(result->Object_0[0] == ("contents"@, JsonView::Array(contents)));
        assert(result.has("contents"@, JsonView::Array(contents)));
        let c = contents[0]->Object_0;
        assert(c[0] == ("uri"@, JsonView::Text(uri)));
        assert(c[1] == ("mimeType"@, JsonView::Text("application/json"@)));
        assert(c[2].0 == "text"@);
        assert(c.len() == 3);
        assert(contents[0].has("uri"@, JsonView::Text(uri)));
        assert(contents[0].has("mimeType"@, JsonView::Text("application/json"@)));
    }
}

/// A resource was read: the contents carry its URI and its type.
pub open spec fn is_readable(answer: HandledView, id: Option<JsonView>, uri: Seq<char>) -> bool {
    answered(answer, id) matches Some(result) && exists|contents: Seq<JsonView>|
        {
            &&& #[trigger] result.has("contents"@, JsonView::Array(contents))
            &&& contents.len() == 1
            &&& contents[0].has("uri"@, JsonView::Text(uri))
            &&& contents[0].has("mimeType"@, JsonView::Text("application/json"@))
        }
}

/// A request was refused with the given code.
pub open spec fn is_refused(answer: HandledView, id: Option<JsonView>, code: int) -> bool {
    &&& answer is Reply
    &&& answer->Reply_0.id == id
    &&& answer->Reply_0.result is None
    &&& answer->Reply_0.error is Some
    &&& answer->Reply_0.error->0.code == code
}

/// There are no prompts: the list of them is empty, and a request for one is
/// refused as a wrong parameter.
pub proof fn law_no_prompts_are_offered(req: RequestView, tools: Seq<ToolInfoView>)
    ensures
        req.method == "prompts/list"@ ==> (answered(handled(req, tools), req.id) matches Some(
            result,
        ) && result.has(
            "prompts"@,
            JsonView::Array(Seq::<JsonView>::empty()),
        )),
        req.method == "prompts/get"@ ==> is_refused(handled(req, tools), req.id, -32602),
{
    lemma_methods();
    if req.method == "prompts/list"@ {
        let result = handled(req, tools)->Reply_0.result->0;
        assert(result->Object_0[0] == (
            "prompts"@,
            JsonView::Array(Seq::<JsonView>::empty()),
        ));
    }
}

/// A client that opens a session is told the version of the protocol, who the
/// server is, and that it has tools, resources and prompts.
pub proof fn law_initialize_tells_of_the_server(req: RequestView, tools: Seq<ToolInfoView>)
    requires
        req.method == "initialize"@,
    ensures
        handled(req, tools)->Reply_0.jsonrpc == "2.0"@,
        answered(handled(req, tools), req.id) matches Some(result) && exists|
            server: JsonView,
            capabilities: JsonView,
        |
            {
                &&& result.has("protocolVersion"@, JsonView::Text("2024-11-05"@))
                &&& #[trigger] result.has("serverInfo"@, server)
                &&& server.has("name"@, JsonView::Text("zeroclaw"@))
                &&& server.has("version"@, JsonView::Text(PROGRAM_VERSION@))
                &&& #[trigger] result.has("capabilities"@, capabilities)
                &&& capabilities.has("tools"@, JsonView::Object(seq![]))
                &&& capabilities.has("resources"@, JsonView::Object(seq![]))
                &&& capabilities.has("prompts"@, JsonView::Object(seq![]))
            },
{
    lemma_methods();
    reveal_strlit("protocolVersion");
    assert("protocolVersion"@.len() == 15);
    reveal_strlit("serverInfo");
    assert("serverInfo"@.len() == 10);
    reveal_strlit("capabilities");
    assert("capabilities"@.len() == 12);
    reveal_strlit("name");
    assert("name"@.len() == 4);
    reveal_strlit("version");
    assert("version"@.len() == 7);
    reveal_strlit("tools");
    assert("tools"@.len() == 5);
    reveal_strlit("resources");
    assert("resources"@.len() == 9);
    reveal_strlit("prompts");
    assert("prompts"@.len() == 7);
    let result = handled(req, tools)->Reply_0.result->0;
    let m = result->Object_0;
    let server = m[1].1;
    let capabilities = m[2].1;
    let nothing = JsonView::Object(Seq::<(Seq<char>, JsonView)>::empty());
    assert(nothing =~= JsonView::Object(seq![]));
    assert(m[0] == ("protocolVersion"@, JsonView::Text("2024-11-05"@)));
    assert(m[1] == ("serverInfo"@, server));
    assert(m[2] == ("capabilities"@, capabilities));
    assert(m.len() == 3);
    assert(server->Object_0.len() == 2);
    assert(capabilities->Object_0.len() == 3);
    assert(server->Object_0[0] == ("name"@, JsonView::Text("zeroclaw"@)));
    assert(server->Object_0[1] == ("version"@, JsonView::Text(PROGRAM_VERSION@)));
    assert(capabilities->Object_0[0] == ("tools"@, nothing));
    assert(capabilities->Object_0[1] == ("resources"@, nothing));
    assert(capabilities->Object_0[2] == ("prompts"@, nothing));
    assert(result.has("protocolVersion"@, JsonView::Text("2024-11-05"@)));
    assert(result.has("serverInfo"@, server));
    assert(result.has("capabilities"@, capabilities));
}

/// A method that the protocol does not know is refused as such, and the message
/// names it.
pub proof fn law_unknown_methods_are_refused(req: RequestView, tools: Seq<ToolInfoView>)
    requires
        req.method != "initialize"@,
        req.method != "notifications/initialized"@,
        req.method != "tools/list"@,
        req.method != "tools/call"@,
        req.method != "resources/list"@,
        req.method != "resources/read"@,
        req.method != "prompts/list"@,
        req.method != "prompts/get"@,
    ensures
        is_refused(handled(req, tools), req.id, -32601),
        text::has_suffix(handled(req, tools)->Reply_0.error->0.message, req.method),
{
    text::lemma_suffix("Unknown method: "@, req.method);
}

/// A call is given to the first tool of the name that was asked for, with the
/// arguments that came along, or with an empty object where none did. Without
/// parameters it is refused as such, and with the name of no tool as unknown.
pub proof fn law_calls_go_to_the_tool_of_that_name(
    req: RequestView,
    tools: Seq<ToolInfoView>,
    name: Seq<char>,
    i: int,
)
    requires
        req.method == "tools/call"@,
    ensures
        req.params is None ==> is_refused(handled(req, tools), req.id, -32602),
        req.params matches Some(params) ==> {
            &&& params.text_at("name"@) == Some(name) && 0 <= i < tools.len() && tools[i].name
                == name && (forall|k: int| 0 <= k < i ==> (#[trigger] tools[k]).name != name) ==> {
                &&& handled(req, tools) matches HandledView::Call { tool, arguments }
                &&& tool == i
                &&& match params.get("arguments"@) {
                    Some(a) => arguments == a,
                    None => arguments == JsonView::Object(seq![]),
                }
            }
            &&& params.text_at("name"@) == Some(name) && (forall|k: int|
                0 <= k < tools.len() ==> (#[trigger] tools[k]).name != name) ==> is_refused(
                handled(req, tools),
                req.id,
                -32601,
            )
        },
{
    lemma_methods();
    if let Some(params) = req.params {
        if params.text_at("name"@) == Some(name) {
            lemma_place(tools, name);
            if 0 <= i < tools.len() && tools[i].name == name && forall|k: int|
                0 <= k < i ==> (#[trigger] tools[k]).name != name {
                lemma_first_place(tools, name, i);
            }
            assert(JsonView::Object(Seq::<(Seq<char>, JsonView)>::empty()) =~= JsonView::Object(
                seq![],
            ));
        }
    }
}

proof fn lemma_first_place(tools: Seq<ToolInfoView>, name: Seq<char>, i: int)
    requires
        0 <= i < tools.len(),
        tools[i].name == name,
        forall|k: int| 0 <= k < i ==> (#[trigger] tools[k]).name != name,
    ensures
        place_of(tools, name) == Some(i),
    decreases i,
{
    if i > 0 {
        let rest = tools.skip(1);
        assert(tools[0].name != name);
        assert forall|k: int| 0 <= k < i - 1 implies (#[trigger] rest[k]).name != name by {
            assert(tools[k + 1].name != name);
        }
        lemma_first_place(rest, name, i - 1);
    }
}

/// The result of a call holds one text: what the tool put out, flagged as an
/// error exactly where the tool says that it failed. Where the tool could not be
/// run the text ends with the reason, and it is flagged.
pub proof fn law_results_of_calls_say_what_the_tool_said(
    outcome: Result<ToolResultView, Seq<char>>,
)
    ensures
        ({
            let result = outcome_result(outcome);
            &&& result.has(
                "isError"@,
                JsonView::Bool(
                    match outcome {
                        Ok(t) => !t.success,
                        Err(_) => true,
                    },
                ),
            )
            &&& exists|items: Seq<JsonView>, said: Seq<char>|
                {
                    &&& #[trigger] result.has("content"@, JsonView::Array(items))
                    &&& items.len() == 1
                    &&& items[0].has("type"@, JsonView::Text("text"@))
                    &&& #[trigger] items[0].has("text"@, JsonView::Text(said))
                    &&& match outcome {
                        Ok(t) => said == t.output,
                        Err(e) => text::has_suffix(said, e),
                    }
                }
        }),
{
    let result = outcome_result(outcome);
    let m = result->Object_0;
    let items = m[0].1->Array_0;
    let said = match outcome {
        Ok(t) => t.output,
        Err(e) => "Error: "@ + e,
    };
    if let Err(e) = outcome {
        text::lemma_suffix("Error: "@, e);
    }
    reveal_strlit("content");
    assert("content"@.len() == 7);
    reveal_strlit("isError");
    assert("isError"@.len() == 7);
    reveal_strlit("type");
    assert("type"@.len() == 4);
    reveal_strlit("text");
    assert("text"@.len() == 4);
    assert("content"@[0] == 'c');
    assert("isError"@[0] == 'i');
    assert("type"@[1] == 'y');
    assert("text"@[1] == 'e');
    assert(m[0] == ("content"@, JsonView::Array(items)));
    assert(m[1].0 == "isError"@);
    assert(items[0]->Object_0[0] == ("type"@, JsonView::Text("text"@)));
    assert(items[0]->Object_0[1] == ("text"@, JsonView::Text(said)));
    assert(result.has("content"@, JsonView::Array(items)));
    assert(items[0].has("text"@, JsonView::Text(said)));
    assert(items[0].has("type"@, JsonView::Text("text"@)));
    let flag = match outcome {
        Ok(t) => !t.success,
        Err(_) => true,
    };
    assert(m[1] == ("isError"@, JsonView::Bool(flag)));
}

/// A notification that the client is ready gets a response without an ID, a
/// result or an error.
pub proof fn law_notifications_are_not_answered(req: RequestView, tools: Seq<ToolInfoView>)
    requires
        req.method == "notifications/initialized"@,
    ensures
        handled(req, tools) matches HandledView::Reply(r) && r.id is None && r.result is None
            && r.error is None,
{
    lemma_methods();
}

/// The resource that tells the version holds the name of the program and its
/// version; it is listed with a name and a description.
pub proof fn law_the_version_is_told()
    ensures
        version_info().has("version"@, JsonView::Text("0.7.0"@)),
        version_info().has("name"@, JsonView::Text("zeroclaw"@)),
        exists|items: Seq<JsonView>|
            {
                &&& #[trigger] resources_list_result().has("resources"@, JsonView::Array(items))
                &&& items.len() == 1
                &&& items[0].has("uri"@, JsonView::Text("zeroclaw://version"@))
                &&& items[0].has("name"@, JsonView::Text("ZeroClaw Version"@))
                &&& items[0].has(
                    "description"@,
                    JsonView::Text("Current ZeroClaw version and build info"@),
                )
                &&& items[0].has("mimeType"@, JsonView::Text("application/json"@))
            },
{
    reveal_strlit("version");
    reveal_strlit("name");
    reveal_strlit("uri");
    reveal_strlit("description");
    reveal_strlit("mimeType");
    assert("version"@.len() == 7 && "name"@.len() == 4 && "uri"@.len() == 3);
    assert("description"@.len() == 11 && "mimeType"@.len() == 8);
    let v = version_info()->Object_0;
    assert(v[0] == ("version"@, JsonView::Text("0.7.0"@)));
    assert(v[1] == ("name"@, JsonView::Text("zeroclaw"@)));
    let all = resources_list_result()->Object_0;
    let items = all[0].1->Array_0;
    assert(all[0] == ("resources"@, JsonView::Array(items)));
    assert(resources_list_result().has("resources"@, JsonView::Array(items)));
    let m = items[0]->Object_0;
    assert(m[0] == ("uri"@, JsonView::Text("zeroclaw://version"@)));
    assert(m[1] == ("name"@, JsonView::Text("ZeroClaw Version"@)));
    assert(m[2] == ("description"@, JsonView::Text("Current ZeroClaw version and build info"@)));
    assert(m[3] == ("mimeType"@, JsonView::Text("application/json"@)));
}

/// A call without parameters, and a call of a tool that is not offered, are
/// refused under the ID of the request; the message says what is missing.
pub proof fn law_refused_calls_say_why(req: RequestView, tools: Seq<ToolInfoView>, name: Seq<char>)
    requires
        req.method == "tools/call"@,
    ensures
        req.params is None ==> {
            let h = handled(req, tools);
            &&& h is Reply
            &&& h->Reply_0.id == req.id
            &&& h->Reply_0.result is None
            &&& h->Reply_0.error is Some
            &&& (h->Reply_0.error->0).code == -32602
            &&& (h->Reply_0.error->0).message == "Missing params"@
        },
        req.params is Some && (req.params->0).text_at("name"@) == Some(name) && (forall|i: int|
            0 <= i < tools.len() ==> (#[trigger] tools[i]).name != name) ==> {
            let h = handled(req, tools);
            &&& h is Reply
            &&& h->Reply_0.id == req.id
            &&& h->Reply_0.result is None
            &&& h->Reply_0.error is Some
            &&& (h->Reply_0.error->0).code == -32601
            &&& (h->Reply_0.error->0).message == "Unknown tool: "@ + name
        },
{
    lemma_methods();
    lemma_no_place(tools, name);
}

proof fn lemma_no_place(tools: Seq<ToolInfoView>, name: Seq<char>)
    ensures
        (forall|i: int| 0 <= i < tools.len() ==> (#[trigger] tools[i]).name != name) ==> place_of(
            tools,
            name,
        ) is None,
    decreases tools.len(),
{
    if tools.len() > 0 && forall|i: int| 0 <= i < tools.len() ==> (#[trigger] tools[i]).name != name {
        assert(tools[0].name != name);
        let rest = tools.skip(1);
        assert forall|i: int| 0 <= i < rest.len() implies (#[trigger] rest[i]).name != name by {
            assert(tools[i + 1].name != name);
        }
        lemma_no_place(rest, name);
    }
}

} // verus!
