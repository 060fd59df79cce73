//! MCP (Model Context Protocol) messages: JSON-RPC 2.0 and tool definitions.

use crate::json;
use crate::json::{Json, JsonView};
use vstd::prelude::*;

verus! {

pub const JSONRPC_VERSION: &'static str = "2.0";

pub const MCP_PROTOCOL_VERSION: &'static str = "2024-11-05";

/// The name and the version that this program gives itself.
pub const PROGRAM_NAME: &'static str = "zeroclaw";

pub const PROGRAM_VERSION: &'static str = "0.7.0";

pub const PARSE_ERROR: i32 = -32700;

pub const METHOD_NOT_FOUND: i32 = -32601;

pub const INVALID_PARAMS: i32 = -32602;

/// Outbound JSON-RPC request (client → MCP server).
pub struct JsonRpcRequest {
    pub jsonrpc: String,
    pub id: Option<Json>,
    pub method: String,
    pub params: Option<Json>,
}

/// Inbound JSON-RPC response (MCP server → client).
pub struct JsonRpcResponse {
    pub jsonrpc: String,
    pub id: Option<Json>,
    pub result: Option<Json>,
    pub error: Option<JsonRpcError>,
}

/// JSON-RPC error object embedded in a response.
pub struct JsonRpcError {
    pub code: i32,
    pub message: String,
    pub data: Option<Json>,
}

/// A tool advertised by an MCP server (from `tools/list` response).
pub struct McpToolDef {
    pub name: String,
    pub description: Option<String>,
    pub input_schema: Json,
}

/// The view of an optional value.
pub open spec fn json_opt(j: Option<Json>) -> Option<JsonView> {
    match j {
        Some(j) => Some(j@),
        None => None,
    }
}

/// A copy of an optional value.
pub fn copied_opt(j: &Option<Json>) -> (r: Option<Json>)
    ensures
        json_opt(r) == json_opt(*j),
{
    match j {
        Some(j) => Some(j.copied()),
        None => None,
    }
}

/// What a request says.
#[verifier::ext_equal]
pub struct RequestView {
    pub jsonrpc: Seq<char>,
    pub id: Option<JsonView>,
    pub method: Seq<char>,
    pub params: Option<JsonView>,
}

impl View for JsonRpcRequest {
    type V = RequestView;

    open spec fn view(&self) -> RequestView {
        RequestView {
            jsonrpc: self.jsonrpc@,
            id: json_opt(self.id),
            method: self.method@,
            params: json_opt(self.params),
        }
    }
}

/// What an error says.
#[verifier::ext_equal]
pub struct ErrorView {
    pub code: i32,
    pub message: Seq<char>,
    pub data: Option<JsonView>,
}

impl View for JsonRpcError {
    type V = ErrorView;

    open spec fn view(&self) -> ErrorView {
        ErrorView { code: self.code, message: self.message@, data: json_opt(self.data) }
    }
}

/// What a response says.
#[verifier::ext_equal]
pub struct ResponseView {
    pub jsonrpc: Seq<char>,
    pub id: Option<JsonView>,
    pub result: Option<JsonView>,
    pub error: Option<ErrorView>,
}

impl View for JsonRpcResponse {
    type V = ResponseView;

    open spec fn view(&self) -> ResponseView {
        ResponseView {
            jsonrpc: self.jsonrpc@,
            id: json_opt(self.id),
            result: json_opt(self.result),
            error: match self.error {
                Some(e) => Some(e@),
                None => None,
            },
        }
    }
}

/// A request that wants an answer.
pub open spec fn request(id: u64, method: Seq<char>, params: JsonView) -> RequestView {
    RequestView {
        jsonrpc: JSONRPC_VERSION@,
        id: Some(JsonView::UInt(id)),
        method,
        params: Some(params),
    }
}

impl JsonRpcRequest {
    /// A request that wants an answer.
    pub fn new(id: u64, method: &str, params: Json) -> (r: Self)
        ensures
            r@ == request(id, method@, params@),
    {
        JsonRpcRequest {
            jsonrpc: JSONRPC_VERSION.to_string(),
            id: Some(Json::UInt(id)),
            method: method.to_string(),
            params: Some(params),
        }
    }

    /// A request that wants no answer.
    pub fn notification(method: &str, params: Json) -> (r: Self)
        ensures
            r@ == (RequestView {
                jsonrpc: JSONRPC_VERSION@,
                id: None,
                method: method@,
                params: Some(params@),
            }),
    {
        JsonRpcRequest {
            jsonrpc: JSONRPC_VERSION.to_string(),
            id: None,
            method: method.to_string(),
            params: Some(params),
        }
    }
}

/// A request names its method, carries its parameters and its number, and speaks
/// the version of the protocol.
pub proof fn law_requests_carry_what_is_asked(id: u64, method: Seq<char>, params: JsonView)
    ensures
        request(id, method, params).jsonrpc == "2.0"@,
        request(id, method, params).id == Some(JsonView::UInt(id)),
        request(id, method, params).method == method,
        request(id, method, params).params == Some(params),
{
}

} // verus!
