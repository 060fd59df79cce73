//! MCP (Model Context Protocol) client — connects to external tool servers.
//!
//! This module decides what is sent to a server, what its answers mean, and
//! when a server is left alone for a while. The transports are left to the
//! caller.

use crate::clock;
use crate::json;
use crate::json::{Json, JsonView};
use crate::text;
use crate::text_map::TextMap;
use crate::tools::mcp_protocol;
use crate::tools::mcp_protocol::{JsonRpcRequest, JsonRpcResponse, McpToolDef};
use vstd::prelude::*;

verus! {

/// Timeout for receiving a response from an MCP server during init/list.
/// Prevents a hung server from blocking the daemon indefinitely.
pub const RECV_TIMEOUT_SECS: u64 = 30;

/// Default timeout for tool calls (seconds) when not configured per-server.
pub const DEFAULT_TOOL_TIMEOUT_SECS: u64 = 180;

/// Maximum allowed tool call timeout (seconds) — hard safety ceiling.
pub const MAX_TOOL_TIMEOUT_SECS: u64 = 600;

// ── Circuit breaker ───────────────────────────────────────────────────────

/// Circuit breaker for MCP server health tracking.
/// Tracks consecutive failures and backs off when a server is unhealthy.
pub struct CircuitBreaker {
    pub consecutive_failures: u32,
    pub last_failure_epoch_ms: u64,
    /// Number of consecutive failures before the circuit opens.
    pub failure_threshold: u32,
    /// Backoff duration in milliseconds after circuit opens.
    pub backoff_ms: u64,
}

/// The circuit is open at `now_ms`: enough failures came in a row, and the last
/// one lies less than the backoff behind.
pub open spec fn open_at(cb: CircuitBreaker, now_ms: u64) -> bool {
    &&& cb.consecutive_failures >= cb.failure_threshold
    &&& (if now_ms < cb.last_failure_epoch_ms {
        0
    } else {
        now_ms - cb.last_failure_epoch_ms
    }) < cb.backoff_ms
}

/// The breaker after a failure at `now_ms`.
pub open spec fn after_failure(cb: CircuitBreaker, now_ms: u64) -> CircuitBreaker {
    CircuitBreaker {
        consecutive_failures: cb.consecutive_failures.wrapping_add(1),
        last_failure_epoch_ms: now_ms,
        ..cb
    }
}

/// The breaker after a success.
pub open spec fn after_success(cb: CircuitBreaker) -> CircuitBreaker {
    CircuitBreaker { consecutive_failures: 0, ..cb }
}

impl CircuitBreaker {
    pub fn new(failure_threshold: u32, backoff_ms: u64) -> (r: Self)
        ensures
            r == (CircuitBreaker {
                consecutive_failures: 0,
                last_failure_epoch_ms: 0,
                failure_threshold,
                backoff_ms,
            }),
    {
        CircuitBreaker {
            consecutive_failures: 0,
            last_failure_epoch_ms: 0,
            failure_threshold,
            backoff_ms,
        }
    }

    /// Record a successful call — resets the failure counter.
    pub fn record_success(&mut self)
        ensures
            *final(self) == after_success(*old(self)),
    {
        self.consecutive_failures = 0;
    }

    /// Record a call that failed at `now_ms`.
    pub fn record_failure_at(&mut self, now_ms: u64)
        ensures
            *final(self) == after_failure(*old(self), now_ms),
    {
        self.consecutive_failures = self.consecutive_failures.wrapping_add(1);
        self.last_failure_epoch_ms = now_ms;
    }

    /// Record a failed call — increments failure counter and updates timestamp.
    pub fn record_failure(&mut self)
        ensures
            exists|now_ms: u64|
                clock::is_wall_millis(now_ms) && *final(self) == #[trigger] after_failure(
                    *old(self),
                    now_ms,
                ),
    {
        let now: u64 = clock::epoch_millis();
        self.record_failure_at(now);
    }

    /// Check if the circuit is open at `now_ms`.
    pub fn is_open_at(&self, now_ms: u64) -> (r: bool)
        ensures
            r == open_at(*self, now_ms),
    {
        if self.consecutive_failures < self.failure_threshold {
            return false;
        }
        // If backoff hasn't elapsed, circuit is still open
        let passed: u64 = if now_ms < self.last_failure_epoch_ms {
            0
        } else {
            now_ms - self.last_failure_epoch_ms
        };
        passed < self.backoff_ms
    }

    /// Check if the circuit is open (server considered unhealthy).
    /// Returns true if we should skip this server.
    pub fn is_open(&self) -> (r: bool)
        ensures
            exists|now_ms: u64|
                clock::is_wall_millis(now_ms) && r == #[trigger] open_at(*self, now_ms),
            self.consecutive_failures < self.failure_threshold ==> !r,
            self.backoff_ms == 0 ==> !r,
    {
        let now: u64 = clock::epoch_millis();
        self.is_open_at(now)
    }

    /// Get the number of consecutive failures.
    pub fn failure_count(&self) -> (r: u32)
        ensures
            r == self.consecutive_failures,
    {
        self.consecutive_failures
    }
}

impl Default for CircuitBreaker {
    fn default() -> (r: Self)
        ensures
            r == (CircuitBreaker {
                consecutive_failures: 0,
                last_failure_epoch_ms: 0,
                failure_threshold: 3,
                backoff_ms: 30_000,
            }),
    {
        Self::new(3, 30_000)  // 3 failures, 30s backoff
    }
}

/// `n` failures in a row, at the given times.
pub open spec fn after_failures(cb: CircuitBreaker, times: Seq<u64>) -> CircuitBreaker
    decreases times.len(),
{
    if times.len() == 0 {
        cb
    } else {
        after_failure(after_failures(cb, times.drop_last()), times.last())
    }
}

proof fn lemma_failures_add_up(cb: CircuitBreaker, times: Seq<u64>)
    requires
        cb.consecutive_failures + times.len() <= u32::MAX,
    ensures
        after_failures(cb, times).consecutive_failures == cb.consecutive_failures + times.len(),
        after_failures(cb, times).failure_threshold == cb.failure_threshold,
        after_failures(cb, times).backoff_ms == cb.backoff_ms,
        times.len() > 0 ==> after_failures(cb, times).last_failure_epoch_ms == times.last(),
    decreases times.len(),
{
    if times.len() > 0 {
        lemma_failures_add_up(cb, times.drop_last());
    }
}

/// After a success the circuit opens with as many failures as the threshold
/// says, not before, and closes once the backoff has passed.
pub proof fn law_circuit_opens_at_threshold(cb: CircuitBreaker, times: Seq<u64>, now_ms: u64)
    requires
        times.len() <= u32::MAX,
        times.len() > 0,
        times.last() <= now_ms,
    ensures
        ({
            let after = after_failures(after_success(cb), times);
            open_at(after, now_ms) <==> times.len() >= cb.failure_threshold && now_ms - times.last()
                < cb.backoff_ms
        }),
{
    lemma_failures_add_up(after_success(cb), times);
}

/// A success closes the circuit, whatever came before, unless it opens without
/// any failure.
pub proof fn law_success_closes_the_circuit(cb: CircuitBreaker, now_ms: u64)
    requires
        cb.failure_threshold > 0,
    ensures
        !open_at(after_success(cb), now_ms),
{
}

/// Only a call that is answered without an error counts as a success; every
/// other one, a timeout included, counts as a failure and gives an error.
pub proof fn law_failed_call_counts_as_failure(
    cb: CircuitBreaker,
    server: Seq<char>,
    timeout_secs: u64,
    tool_name: Seq<char>,
    outcome: Exchange,
    now_ms: u64,
)
    ensures
        ({
            let said = call_outcome(server, timeout_secs, tool_name, outcome);
            &&& said.1 <==> said.0 is Ok
            &&& said.0 is Err ==> counted(cb, said.1, now_ms) == after_failure(cb, now_ms)
            &&& outcome is TimedOut || outcome is Failed ==> said.0 is Err
        }),
{
}

// ── Connecting ────────────────────────────────────────────────────────────

/// What came of sending a request to a server.
pub enum Exchange {
    /// No answer came in time.
    TimedOut,
    /// The transport failed.
    Failed(String),
    Answer(JsonRpcResponse),
}

/// The parameters of the handshake.
pub open spec fn initialize_params() -> JsonView {
    JsonView::Object(
        seq![
            ("protocolVersion"@, JsonView::Text(mcp_protocol::MCP_PROTOCOL_VERSION@)),
            ("capabilities"@, JsonView::Object(Seq::<(Seq<char>, JsonView)>::empty())),
            (
                "clientInfo"@,
                JsonView::Object(
                    seq![
                        ("name"@, JsonView::Text(mcp_protocol::PROGRAM_NAME@)),
                        ("version"@, JsonView::Text(mcp_protocol::PROGRAM_VERSION@)),
                    ],
                ),
            ),
        ],
    )
}

/// The first request to a server.
pub fn initialize_request() -> (r: JsonRpcRequest)
    ensures
        r@ == mcp_protocol::request(1, "initialize"@, initialize_params()),
{
    let info = json::object2(
        "name",
        json::string(mcp_protocol::PROGRAM_NAME),
        "version",
        json::string(mcp_protocol::PROGRAM_VERSION),
    );
    let params = json::object3(
        "protocolVersion",
        json::string(mcp_protocol::MCP_PROTOCOL_VERSION),
        "capabilities",
        json::object0(),
        "clientInfo",
        info,
    );
    JsonRpcRequest::new(1, "initialize", params)
}

/// What is said of a server that could not be reached.
pub fn transport_failure(server: &str) -> (r: String)
    ensures
        r@ == "failed to create transport for MCP server `"@ + server@ + "`"@,
{
    text::cat3("failed to create transport for MCP server `", server, "`")
}

/// What is said of a server that does not answer while connecting.
pub open spec fn silent(server: Seq<char>, awaited: Seq<char>) -> Seq<char> {
    "MCP server `"@ + server + "` timed out after "@ + text::decimal(RECV_TIMEOUT_SECS as nat)
        + "s waiting for "@ + awaited + " response"@
}

fn silence(server: &str, awaited: &str) -> (r: String)
    ensures
        r@ == silent(server@, awaited@),
{
    let seconds = text::decimal_of(RECV_TIMEOUT_SECS);
    let mut r = text::cat5(
        "MCP server `",
        server,
        "` timed out after ",
        seconds.as_str(),
        "s waiting for ",
    );
    r.append(awaited);
    r.append(" response");
    r
}

/// Takes the answer to the handshake: the notification to send next, or why the
/// server cannot be used. `shown` is the error of the answer in debug form.
pub fn accept_initialize(server: &str, outcome: &Exchange, shown: &str) -> (r: Result<
    JsonRpcRequest,
    String,
>)
    ensures
        match *outcome {
            Exchange::TimedOut => r matches Err(e) && e@ == silent(server@, "initialize"@),
            Exchange::Failed(why) => r matches Err(e) && e@ == why@,
            Exchange::Answer(answer) => if answer.error is Some {
                r matches Err(e) && e@ == "MCP server `"@ + server@ + "` rejected initialize: "@
                    + shown@
            } else {
                r matches Ok(q) && q@ == (mcp_protocol::RequestView {
                    jsonrpc: mcp_protocol::JSONRPC_VERSION@,
                    id: None,
                    method: "notifications/initialized"@,
                    params: Some(JsonView::Object(Seq::<(Seq<char>, JsonView)>::empty())),
                })
            },
        },
{
    match outcome {
        Exchange::TimedOut => Err(silence(server, "initialize")),
        Exchange::Failed(why) => Err(why.clone()),
        Exchange::Answer(answer) => if answer.error.is_some() {
            Err(text::cat4("MCP server `", server, "` rejected initialize: ", shown))
        } else {
            Ok(JsonRpcRequest::notification("notifications/initialized", json::object0()))
        },
    }
}

/// The request for the tools of a server.
pub fn tools_list_request() -> (r: JsonRpcRequest)
    ensures
        r@ == mcp_protocol::request(
            2,
            "tools/list"@,
            JsonView::Object(Seq::<(Seq<char>, JsonView)>::empty()),
        ),
{
    JsonRpcRequest::new(2, "tools/list", json::object0())
}

/// Takes the answer to the request for tools: the list, still as JSON, or why
/// the server cannot be used.
pub fn accept_tools_list(server: &str, outcome: Exchange) -> (r: Result<Json, String>)
    ensures
        match outcome {
            Exchange::TimedOut => r matches Err(e) && e@ == silent(server@, "tools/list"@),
            Exchange::Failed(why) => r matches Err(e) && e@ == why@,
            Exchange::Answer(answer) => match answer.result {
                Some(result) => r matches Ok(list) && list@ == result@,
                None => r matches Err(e) && e@ == "tools/list returned no result from `"@ + server@
                    + "`"@,
            },
        },
{
    match outcome {
        Exchange::TimedOut => Err(silence(server, "tools/list")),
        Exchange::Failed(why) => Err(why),
        Exchange::Answer(answer) => match answer.result {
            Some(result) => Ok(result),
            None => Err(text::cat3("tools/list returned no result from `", server, "`")),
        },
    }
}

/// What is said of a list of tools that is not one.
pub fn unreadable_tools_list(server: &str) -> (r: String)
    ensures
        r@ == "failed to parse tools/list from `"@ + server@ + "`"@,
{
    text::cat3("failed to parse tools/list from `", server, "`")
}

// ── McpServer ──────────────────────────────────────────────────────────────

/// A connection to one MCP server.
pub struct McpServer {
    pub name: String,
    /// Timeout for tool calls in seconds, where one is configured.
    pub tool_timeout_secs: Option<u64>,
    pub next_id: u64,
    pub tools: Vec<McpToolDef>,
    pub circuit_breaker: CircuitBreaker,
}

/// The timeout for tool calls: the configured one or the default, and never
/// above the ceiling.
pub open spec fn effective_timeout(configured: Option<u64>) -> u64 {
    let wanted = match configured {
        Some(t) => t,
        None => DEFAULT_TOOL_TIMEOUT_SECS,
    };
    if wanted <= MAX_TOOL_TIMEOUT_SECS {
        wanted
    } else {
        MAX_TOOL_TIMEOUT_SECS
    }
}

/// What is said of a server whose circuit is open.
pub open spec fn unavailable(server: Seq<char>, failures: u32) -> Seq<char> {
    "MCP server '"@ + server + "' is temporarily unavailable (circuit open after "@ + text::decimal(
        failures as nat,
    ) + " consecutive failures)"@
}

/// The outcome of a tool call, and whether it counts as a success of the server.
/// A call that times out failed like any other.
pub open spec fn call_outcome(
    server: Seq<char>,
    timeout_secs: u64,
    tool_name: Seq<char>,
    outcome: Exchange,
) -> (Result<JsonView, Seq<char>>, bool) {
    match outcome {
        Exchange::TimedOut => (
            Err(
                "MCP server `"@ + server + "` timed out after "@ + text::decimal(
                    timeout_secs as nat,
                ) + "s during tool call `"@ + tool_name + "`"@,
            ),
            false,
        ),
        Exchange::Failed(_) => (
            Err("MCP server `"@ + server + "` error during tool call `"@ + tool_name + "`"@),
            false,
        ),
        Exchange::Answer(answer) => match answer.error {
            Some(e) => (
                Err(
                    "MCP tool `"@ + tool_name + "` error "@ + text::decimal_int(e.code as int)
                        + ": "@ + e.message@,
                ),
                false,
            ),
            None => (
                Ok(
                    match answer.result {
                        Some(result) => result@,
                        None => JsonView::Null,
                    },
                ),
                true,
            ),
        },
    }
}

/// The breaker after a call that succeeded, or failed at `now_ms`.
pub open spec fn counted(cb: CircuitBreaker, succeeded: bool, now_ms: u64) -> CircuitBreaker {
    if succeeded {
        after_success(cb)
    } else {
        after_failure(cb, now_ms)
    }
}

/// The parameters of a tool call.
pub open spec fn call_params(tool_name: Seq<char>, arguments: JsonView) -> JsonView {
    JsonView::Object(seq![("name"@, JsonView::Text(tool_name)), ("arguments"@, arguments)])
}

/// The view of an outcome.
pub open spec fn outcome_view(r: Result<Json, String>) -> Result<JsonView, Seq<char>> {
    match r {
        Ok(j) => Ok(j@),
        Err(e) => Err(e@),
    }
}

impl McpServer {
    /// A server that answered the handshake and listed its tools.
    pub fn connected(name: String, tool_timeout_secs: Option<u64>, tools: Vec<McpToolDef>) -> (r:
        Self)
        ensures
            r.name == name,
            r.tool_timeout_secs == tool_timeout_secs,
            r.next_id == 3,
            r.tools == tools,
            r.circuit_breaker == (CircuitBreaker {
                consecutive_failures: 0,
                last_failure_epoch_ms: 0,
                failure_threshold: 3,
                backoff_ms: 30_000,
            }),
    {
        McpServer {
            name,
            tool_timeout_secs,
            next_id: 3,  // Start at 3 since we used 1 and 2
            tools,
            circuit_breaker: CircuitBreaker::default(),
        }
    }

    /// Tools advertised by this server.
    pub fn tools(&self) -> (r: &Vec<McpToolDef>)
        ensures
            *r == self.tools,
    {
        &self.tools
    }

    /// Server display name.
    pub fn name(&self) -> (r: &String)
        ensures
            *r == self.name,
    {
        &self.name
    }

    /// The timeout for tool calls in seconds.
    pub fn tool_timeout(&self) -> (r: u64)
        ensures
            r == effective_timeout(self.tool_timeout_secs),
    {
        let wanted: u64 = match self.tool_timeout_secs {
            Some(t) => t,
            None => DEFAULT_TOOL_TIMEOUT_SECS,
        };
        if wanted <= MAX_TOOL_TIMEOUT_SECS {
            wanted
        } else {
            MAX_TOOL_TIMEOUT_SECS
        }
    }

    /// Starts a tool call, given whether the circuit is open: the request to
    /// send, or that the server is left alone.
    pub fn begin_call_given(&mut self, open: bool, tool_name: &str, arguments: &Json) -> (r: Result<
        JsonRpcRequest,
        String,
    >)
        ensures
            final(self).name == old(self).name,
            final(self).tool_timeout_secs == old(self).tool_timeout_secs,
            final(self).tools == old(self).tools,
            final(self).circuit_breaker == old(self).circuit_breaker,
            if open {
                &&& r matches Err(e) && e@ == unavailable(
                    old(self).name@,
                    old(self).circuit_breaker.consecutive_failures,
                )
                &&& final(self).next_id == old(self).next_id
            } else {
                &&& r matches Ok(q) && q@ == mcp_protocol::request(
                    old(self).next_id,
                    "tools/call"@,
                    call_params(tool_name@, arguments@),
                )
                &&& final(self).next_id == old(self).next_id.wrapping_add(1)
            },
    {
        if open {
            let failures = text::decimal_of(self.circuit_breaker.failure_count() as u64);
            return Err(
                text::cat5(
                    "MCP server '",
                    self.name.as_str(),
                    "' is temporarily unavailable (circuit open after ",
                    failures.as_str(),
                    " consecutive failures)",
                ),
            );
        }
        let id: u64 = self.next_id;
        self.next_id = id.wrapping_add(1);
        let params = json::object2(
            "name",
            json::string(tool_name),
            "arguments",
            arguments.copied(),
        );
        Ok(JsonRpcRequest::new(id, "tools/call", params))
    }

    /// Starts a tool call: the request to send, or that the circuit is open.
    pub fn begin_call(&mut self, tool_name: &str, arguments: &Json) -> (r: Result<
        JsonRpcRequest,
        String,
    >)
        ensures
            final(self).name == old(self).name,
            final(self).tool_timeout_secs == old(self).tool_timeout_secs,
            final(self).tools == old(self).tools,
            final(self).circuit_breaker == old(self).circuit_breaker,
            old(self).circuit_breaker.consecutive_failures
                < old(self).circuit_breaker.failure_threshold ==> r is Ok,
            match r {
                Ok(q) => q@ == mcp_protocol::request(
                    old(self).next_id,
                    "tools/call"@,
                    call_params(tool_name@, arguments@),
                ) && final(self).next_id == old(self).next_id.wrapping_add(1) && exists|now_ms: u64|
                    clock::is_wall_millis(now_ms) && !#[trigger] open_at(
                        old(self).circuit_breaker,
                        now_ms,
                    ),
                Err(e) => e@ == unavailable(
                    old(self).name@,
                    old(self).circuit_breaker.consecutive_failures,
                ) && final(self).next_id == old(self).next_id && exists|now_ms: u64|
                    clock::is_wall_millis(now_ms) && #[trigger] open_at(
                        old(self).circuit_breaker,
                        now_ms,
                    ),
            },
    {
        let open = self.circuit_breaker.is_open();
        self.begin_call_given(open, tool_name, arguments)
    }

    /// Takes what came of a tool call at `now_ms`.
    pub fn finish_call_at(&mut self, tool_name: &str, outcome: Exchange, now_ms: u64) -> (r: Result<
        Json,
        String,
    >)
        ensures
            final(self).name == old(self).name,
            final(self).tool_timeout_secs == old(self).tool_timeout_secs,
            final(self).next_id == old(self).next_id,
            final(self).tools == old(self).tools,
            ({
                let said = call_outcome(
                    old(self).name@,
                    effective_timeout(old(self).tool_timeout_secs),
                    tool_name@,
                    outcome,
                );
                &&& outcome_view(r) == said.0
                &&& final(self).circuit_breaker == counted(
                    old(self).circuit_breaker,
                    said.1,
                    now_ms,
                )
            }),
    {
        match outcome {
            Exchange::TimedOut => {
                self.circuit_breaker.record_failure_at(now_ms);
                let seconds = text::decimal_of(self.tool_timeout());
                let mut message = text::cat5(
                    "MCP server `",
                    self.name.as_str(),
                    "` timed out after ",
                    seconds.as_str(),
                    "s during tool call `",
                );
                message.append(tool_name);
                message.append("`");
                Err(message)
            },
            Exchange::Failed(_) => {
                self.circuit_breaker.record_failure_at(now_ms);
                Err(
                    text::cat5(
                        "MCP server `",
                        self.name.as_str(),
                        "` error during tool call `",
                        tool_name,
                        "`",
                    ),
                )
            },
            Exchange::Answer(answer) => match answer.error {
                Some(e) => {
                    self.circuit_breaker.record_failure_at(now_ms);
                    let code = text::decimal_of_signed(e.code as i64);
                    let mut message = text::cat5(
                        "MCP tool `",
                        tool_name,
                        "` error ",
                        code.as_str(),
                        ": ",
                    );
                    message.append(e.message.as_str());
                    Err(message)
                },
                None => {
                    self.circuit_breaker.record_success();
                    match answer.result {
                        Some(result) => Ok(result),
                        None => Ok(Json::Null),
                    }
                },
            },
        }
    }

    /// Takes what came of a tool call.
    pub fn finish_call(&mut self, tool_name: &str, outcome: Exchange) -> (r: Result<Json, String>)
        ensures
            final(self).name == old(self).name,
            final(self).tool_timeout_secs == old(self).tool_timeout_secs,
            final(self).next_id == old(self).next_id,
            final(self).tools == old(self).tools,
            ({
                let said = call_outcome(
                    old(self).name@,
                    effective_timeout(old(self).tool_timeout_secs),
                    tool_name@,
                    outcome,
                );
                &&& outcome_view(r) == said.0
                &&& exists|now_ms: u64|
                    clock::is_wall_millis(now_ms) && final(self).circuit_breaker
                        == #[trigger] counted(
                        old(self).circuit_breaker,
                        said.1,
                        now_ms,
                    )
            }),
    {
        let now: u64 = clock::epoch_millis();
        self.finish_call_at(tool_name, outcome, now)
    }
}

// ── McpRegistry ───────────────────────────────────────────────────────────

/// Registry of all connected MCP servers, with a flat tool index.
pub struct McpRegistry {
    servers: Vec<McpServer>,
    /// prefixed_name → (server_index, original_tool_name)
    tool_index: TextMap<(usize, String)>,
}

/// The name under which a tool of a server is known.
pub open spec fn prefixed(server: Seq<char>, tool: Seq<char>) -> Seq<char> {
    server + "__"@ + tool
}

/// The index with the first `n` of `tools` added, as tools of the server at
/// place `at`.
pub open spec fn indexed(
    index: Map<Seq<char>, (usize, String)>,
    server: Seq<char>,
    at: usize,
    tools: Seq<McpToolDef>,
    n: int,
) -> Map<Seq<char>, (usize, String)>
    decreases n,
{
    if n <= 0 {
        index
    } else {
        indexed(index, server, at, tools, n - 1).insert(
            prefixed(server, tools[n - 1].name@),
            (at, tools[n - 1].name),
        )
    }
}

impl McpRegistry {
    /// The servers, in the order in which they connected.
    pub closed spec fn connected(&self) -> Seq<McpServer> {
        self.servers@
    }

    /// For each prefixed name, the place of its server and the tool's own name.
    pub closed spec fn index(&self) -> Map<Seq<char>, (usize, String)> {
        self.tool_index@
    }

    /// Every indexed tool belongs to a connected server.
    pub open spec fn sound(&self) -> bool {
        forall|name: Seq<char>| #[trigger]
            self.index().dom().contains(name) ==> self.index()[name].0 < self.connected().len()
    }

    /// The registry without servers.
    pub fn new() -> (r: Self)
        ensures
            r.connected() == Seq::<McpServer>::empty(),
            r.index() == Map::<Seq<char>, (usize, String)>::empty(),
            r.sound(),
    {
        McpRegistry { servers: Vec::new(), tool_index: TextMap::new() }
    }

    /// Adds a server and the tools that it advertises.
    pub fn add(&mut self, server: McpServer)
        ensures
            final(self).connected() == old(self).connected().push(server),
            final(self).index() == indexed(
                old(self).index(),
                server.name@,
                old(self).connected().len() as usize,
                server.tools@,
                server.tools@.len() as int,
            ),
            old(self).sound() ==> final(self).sound(),
    {
        let at: usize = self.servers.len();
        let ghost before = self.index();
        for k in 0..server.tools.len()
            invariant
                at == self.servers@.len(),
                self.servers@ == old(self).servers@,
                before == old(self).index(),
                self.index() == indexed(before, server.name@, at, server.tools@, k as int),
        {
            // Prefix prevents name collisions across servers
            let name = text::cat3(server.name.as_str(), "__", server.tools[k].name.as_str());
            self.tool_index.insert(name, (at, server.tools[k].name.clone()));
        }
        proof {
            lemma_indexed_places(
                before,
                server.name@,
                at,
                server.tools@,
                server.tools@.len() as int,
            );
        }
        self.servers.push(server);
    }

    /// All prefixed tool names across all connected servers.
    pub fn tool_names(&self) -> (r: Vec<String>)
        ensures
            text::views(r@).no_duplicates(),
            text::views(r@).to_set() == self.index().dom(),
    {
        self.tool_index.keys()
    }

    /// The place of a tool's server and the tool's own name.
    pub fn resolve(&self, prefixed_name: &str) -> (r: Result<(usize, &String), String>)
        ensures
            match r {
                Ok((at, name)) => self.index().dom().contains(prefixed_name@)
                    && self.index()[prefixed_name@] == (at, *name),
                Err(e) => !self.index().dom().contains(prefixed_name@) && e@
                    == "unknown MCP tool `"@ + prefixed_name@ + "`"@,
            },
    {
        match self.tool_index.get(prefixed_name) {
            Some(entry) => Ok((entry.0, &entry.1)),
            None => Err(text::cat3("unknown MCP tool `", prefixed_name, "`")),
        }
    }

    /// Tool definition for a given prefixed name: the first one of that name
    /// that its server advertises.
    pub fn get_tool_def(&self, prefixed_name: &str) -> (r: Option<&McpToolDef>)
        ensures
            match r {
                Some(def) => self.index().dom().contains(prefixed_name@) && ({
                    let (at, name) = self.index()[prefixed_name@];
                    at < self.connected().len() && exists|k: int|
                        first_named(self.connected()[at as int].tools@, name@, k) && *def
                            == #[trigger] self.connected()[at as int].tools@[k]
                }),
                None => !self.index().dom().contains(prefixed_name@) || ({
                    let (at, name) = self.index()[prefixed_name@];
                    at >= self.connected().len() || forall|k: int|
                        0 <= k < self.connected()[at as int].tools@.len() ==> (
                        #[trigger] self.connected()[at as int].tools@[k]).name@ != name@
                }),
            },
    {
        match self.tool_index.get(prefixed_name) {
            Some(entry) => {
                if entry.0 >= self.servers.len() {
                    return None;
                }
                let server = &self.servers[entry.0];
                for k in 0..server.tools.len()
                    invariant
                        *server == self.servers@[entry.0 as int],
                        entry.0 < self.servers@.len(),
                        self.tool_index@.dom().contains(prefixed_name@),
                        self.tool_index@[prefixed_name@] == *entry,
                        forall|m: int| 0 <= m < k ==> (#[trigger] server.tools@[m]).name@ != entry.1@,
                {
                    if text::same_text(server.tools[k].name.as_str(), entry.1.as_str()) {
                        proof {
                            assert(first_named(
                                self.connected()[entry.0 as int].tools@,
                                entry.1@,
                                k as int,
                            ));
                        }
                        return Some(&server.tools[k]);
                    }
                }
                None
            },
            None => None,
        }
    }

    /// The server at a place.
    pub fn server_mut(&mut self, at: usize) -> (r: Option<&mut McpServer>)
        ensures
            at < old(self).connected().len() <==> r is Some,
            match r {
                Some(server) => *server == old(self).connected()[at as int]
                    && final(self).connected() == old(self).connected().update(
                    at as int,
                    *final(server),
                ) && final(self).index() == old(self).index(),
                None => *final(self) == *old(self),
            },
    {
        if at < self.servers.len() {
            Some(&mut self.servers[at])
        } else {
            None
        }
    }

    /// The result of a tool call as text.
    pub fn shown_result(result: &Json) -> (r: String)
        ensures
            r@ == json::pretty_text(json::json_value(result@)),
    {
        json::to_text_pretty(result)
    }

    pub fn is_empty(&self) -> (r: bool)
        ensures
            r == (self.connected().len() == 0),
    {
        self.servers.len() == 0
    }

    pub fn server_count(&self) -> (r: usize)
        ensures
            r == self.connected().len(),
    {
        self.servers.len()
    }

    pub fn tool_count(&self) -> (r: usize)
        ensures
            self.index().dom().finite(),
            r == self.index().dom().len(),
    {
        self.tool_index.len()
    }
}

proof fn lemma_indexed_places(
    index: Map<Seq<char>, (usize, String)>,
    server: Seq<char>,
    at: usize,
    tools: Seq<McpToolDef>,
    n: int,
)
    ensures
        forall|name: Seq<char>| #[trigger]
            indexed(index, server, at, tools, n).dom().contains(name) ==> indexed(
                index,
                server,
                at,
                tools,
                n,
            )[name].0 == at || (index.dom().contains(name) && indexed(
                index,
                server,
                at,
                tools,
                n,
            )[name] == index[name]),
    decreases n,
{
    if n > 0 {
        lemma_indexed_places(index, server, at, tools, n - 1);
        let before = indexed(index, server, at, tools, n - 1);
        let all = indexed(index, server, at, tools, n);
        assert forall|name: Seq<char>| #[trigger] all.dom().contains(name) implies all[name].0 == at
            || (index.dom().contains(name) && all[name] == index[name]) by {
            if name != prefixed(server, tools[n - 1].name@) {
                assert(before.dom().contains(name));
            }
        }
    }
}

/// The tool at `k` is the first one of that name.
pub open spec fn first_named(tools: Seq<McpToolDef>, name: Seq<char>, k: int) -> bool {
    &&& 0 <= k < tools.len()
    &&& tools[k].name@ == name
    &&& forall|m: int| 0 <= m < k ==> (#[trigger] tools[m]).name@ != name
}

/// Tools of two servers are never known under one name, unless the name of one
/// server is that of the other with underscores behind it.
pub proof fn law_prefix_keeps_servers_apart(
    a: Seq<char>,
    b: Seq<char>,
    x: Seq<char>,
    y: Seq<char>,
)
    requires
        a != b,
        !text::has_prefix(b, a + "__"@),
        !text::has_prefix(a, b + "__"@),
        b != a + "_"@,
        a != b + "_"@,
    ensures
        prefixed(a, x) != prefixed(b, y),
{
    if prefixed(a, x) == prefixed(b, y) {
        if a.len() <= b.len() {
            lemma_collision(a, b, x, y);
        } else {
            lemma_collision(b, a, y, x);
        }
    }
}

proof fn lemma_collision(a: Seq<char>, b: Seq<char>, x: Seq<char>, y: Seq<char>)
    requires
        a.len() <= b.len(),
        prefixed(a, x) == prefixed(b, y),
    ensures
        a == b || b == a + "_"@ || text::has_prefix(b, a + "__"@),
{
    reveal_strlit("__");
    reveal_strlit("_");
    let p = prefixed(a, x);
    let q = prefixed(b, y);
    let n = a.len() as int;
    assert(a =~= p.take(n));
    assert(b =~= q.take(b.len() as int));
    if a.len() == b.len() {
        assert(a =~= b);
    } else if b.len() == a.len() + 1 {
        assert(p[n] == '_');
        assert(b =~= a + "_"@);
    } else {
        assert(p[n] == '_' && p[n + 1] == '_');
        assert(b.take(n + 2) =~= a + "__"@);
    }
}

/// A tool of the server that connected last is found under its prefixed name,
/// with its own name.
pub proof fn law_advertised_tool_is_indexed(
    index: Map<Seq<char>, (usize, String)>,
    server: Seq<char>,
    at: usize,
    tools: Seq<McpToolDef>,
    k: int,
    n: int,
)
    requires
        0 <= k < n <= tools.len(),
    ensures
        ({
            let name = prefixed(server, tools[k].name@);
            let all = indexed(index, server, at, tools, n);
            all.dom().contains(name) && all[name].0 == at && all[name].1@ == tools[k].name@
        }),
    decreases n,
{
    let name = prefixed(server, tools[k].name@);
    if k < n - 1 {
        law_advertised_tool_is_indexed(index, server, at, tools, k, n - 1);
        if prefixed(server, tools[n - 1].name@) == name {
            let a = tools[k].name@;
            let b = tools[n - 1].name@;
            let skip = (server + "__"@).len() as int;
            assert(a =~= name.skip(skip));
            assert(b =~= name.skip(skip));
        }
    }
}

/// Adding a server leaves every name alone that is not one of its tools under
/// its prefix.
pub proof fn law_other_tools_stay_indexed(
    index: Map<Seq<char>, (usize, String)>,
    server: Seq<char>,
    at: usize,
    tools: Seq<McpToolDef>,
    n: int,
    name: Seq<char>,
)
    requires
        n <= tools.len(),
        forall|k: int|
            0 <= k < n ==> server + seq!['_', '_'] + (#[trigger] tools[k]).name@ != name,
    ensures
        ({
            let all = indexed(index, server, at, tools, n);
            &&& all.dom().contains(name) <==> index.dom().contains(name)
            &&& index.dom().contains(name) ==> all[name] == index[name]
        }),
    decreases n,
{
    if n > 0 {
        reveal_strlit("__");
        assert("__"@ =~= seq!['_', '_']);
        assert(server + seq!['_', '_'] + tools[n - 1].name@ != name);
        law_other_tools_stay_indexed(index, server, at, tools, n - 1, name);
    }
}

/// A tool call may take as long as is configured, but never more than ten
/// minutes; where nothing is configured, three minutes.
pub proof fn law_tool_calls_have_a_ceiling(secs: u64)
    ensures
        secs <= 600 ==> effective_timeout(Some(secs)) == secs,
        secs > 600 ==> effective_timeout(Some(secs)) == 600,
        effective_timeout(None) == 180,
{
}

/// A call that was answered without an error gives the result of the answer,
/// whatever the server and the tool are. Any other gives an error: one of the
/// answer names the tool and ends with what the server said, and one of a server
/// that did not answer names the server and the tool.
pub proof fn law_answers_are_handed_on(
    server: Seq<char>,
    timeout_secs: u64,
    tool: Seq<char>,
    outcome: Exchange,
)
    ensures
        match outcome {
            Exchange::Answer(answer) => match (answer.error, answer.result) {
                (None, Some(result)) => call_outcome(server, timeout_secs, tool, outcome).0
                    == Result::<JsonView, Seq<char>>::Ok(result@),
                (None, None) => call_outcome(server, timeout_secs, tool, outcome).0 == Result::<
                    JsonView,
                    Seq<char>,
                >::Ok(JsonView::Null),
                (Some(e), _) => call_outcome(server, timeout_secs, tool, outcome).0 matches Err(m)
                    && text::has_suffix(m, e.message@) && text::contains(m, tool),
            },
            _ => call_outcome(server, timeout_secs, tool, outcome).0 matches Err(m)
                && text::contains(m, server) && text::contains(m, tool),
        },
{
    text::lemma_contains_self(server);
    text::lemma_contains_self(tool);
    match outcome {
        Exchange::Answer(answer) => {
            if let Some(e) = answer.error {
                let m = call_outcome(server, timeout_secs, tool, outcome).0->Err_0;
                let code = text::decimal_int(e.code as int);
                let back = "` error "@ + code + ": "@ + e.message@;
                assert(m =~= "MCP tool `"@ + tool + back);
                text::lemma_contains_within("MCP tool `"@, tool, back, tool);
                let front = "MCP tool `"@ + tool + "` error "@ + code + ": "@;
                text::lemma_suffix(front, e.message@);
            }
        },
        Exchange::TimedOut => {
            let m = call_outcome(server, timeout_secs, tool, outcome).0->Err_0;
            let back = "` timed out after "@ + text::decimal(timeout_secs as nat)
                + "s during tool call `"@ + tool + "`"@;
            assert(m =~= "MCP server `"@ + server + back);
            text::lemma_contains_within("MCP server `"@, server, back, server);
            let front = "MCP server `"@ + server + "` timed out after "@ + text::decimal(
                timeout_secs as nat,
            ) + "s during tool call `"@;
            text::lemma_contains_within(front, tool, "`"@, tool);
        },
        Exchange::Failed(_) => {
            let m = call_outcome(server, timeout_secs, tool, outcome).0->Err_0;
            let back = "` error during tool call `"@ + tool + "`"@;
            assert(m =~= "MCP server `"@ + server + back);
            text::lemma_contains_within("MCP server `"@, server, back, server);
            let front = "MCP server `"@ + server + "` error during tool call `"@;
            text::lemma_contains_within(front, tool, "`"@, tool);
        },
    }
}

/// The request for a tool call carries an ID, asks for `tools/call`, and names
/// the tool with its arguments.
pub proof fn law_call_requests_name_the_tool(id: u64, tool: Seq<char>, arguments: JsonView)
    ensures
        ({
            let q = mcp_protocol::request(id, "tools/call"@, call_params(tool, arguments));
            &&& q.jsonrpc == "2.0"@
            &&& q.id == Some(JsonView::UInt(id))
            &&& q.method == "tools/call"@
            &&& q.params is Some
            &&& q.params->0.has("name"@, JsonView::Text(tool))
            &&& q.params->0.has("arguments"@, arguments)
        }),
{
    reveal_strlit("name");
    reveal_strlit("arguments");
    assert("name"@.len() == 4);
    assert("arguments"@.len() == 9);
    let m = call_params(tool, arguments)->Object_0;
    assert(m[0] == ("name"@, JsonView::Text(tool)));
    assert(m[1] == ("arguments"@, arguments));
    assert(m.len() == 2);
}

/// A client opens a connection with the version of the protocol and its own
/// name.
pub proof fn law_the_handshake_tells_who_asks(client: JsonView)
    requires
        initialize_params().has("clientInfo"@, client),
    ensures
        initialize_params().has("protocolVersion"@, JsonView::Text("2024-11-05"@)),
        client.has("name"@, JsonView::Text("zeroclaw"@)),
{
    reveal_strlit("protocolVersion");
    reveal_strlit("capabilities");
    reveal_strlit("clientInfo");
    reveal_strlit("name");
    reveal_strlit("version");
    assert("protocolVersion"@.len() == 15);
    assert("capabilities"@.len() == 12);
    assert("clientInfo"@.len() == 10);
    assert("name"@.len() == 4);
    assert("version"@.len() == 7);
    let m = initialize_params()->Object_0;
    assert(m.len() == 3);
    assert(m[0] == ("protocolVersion"@, JsonView::Text("2024-11-05"@)));
    assert(m[1].0 == "capabilities"@);
    assert(m[2].0 == "clientInfo"@);
    assert(client == m[2].1);
    let c = client->Object_0;
    assert(c[0] == ("name"@, JsonView::Text("zeroclaw"@)));
    assert(c[1].0 == "version"@);
    assert(c.len() == 2);
}

/// A server that is silent, or is left alone for a while, is named in the error,
/// with what was awaited from it, or how often it failed in a row.
pub proof fn law_silent_servers_are_named(server: Seq<char>, awaited: Seq<char>, failures: u32)
    ensures
        text::has_prefix(silent(server, awaited), "MCP server `"@ + server + "` timed out after "@),
        text::has_suffix(
            silent(server, awaited),
            text::decimal(30) + "s waiting for "@ + awaited + " response"@,
        ),
        text::has_prefix(
            unavailable(server, failures),
            "MCP server '"@ + server + "' is temporarily unavailable"@,
        ),
        text::has_suffix(
            unavailable(server, failures),
            text::decimal(failures as nat) + " consecutive failures)"@,
        ),
{
    let a = "MCP server `"@ + server + "` timed out after "@;
    let b = text::decimal(30) + "s waiting for "@ + awaited + " response"@;
    assert(silent(server, awaited) =~= a + b);
    text::lemma_prefix(a, b);
    text::lemma_suffix(a, b);
    let middle = "' is temporarily unavailable (circuit open after "@;
    reveal_strlit("' is temporarily unavailable (circuit open after ");
    reveal_strlit("' is temporarily unavailable");
    assert(middle =~= "' is temporarily unavailable"@ + middle.skip(28));
    let c = "MCP server '"@ + server + "' is temporarily unavailable"@;
    let d = text::decimal(failures as nat) + " consecutive failures)"@;
    assert(unavailable(server, failures) =~= c + (middle.skip(28) + d));
    text::lemma_prefix(c, middle.skip(28) + d);
    assert(unavailable(server, failures) =~= ("MCP server '"@ + server + middle) + d);
    text::lemma_suffix("MCP server '"@ + server + middle, d);
}

/// Of the tools with a name only one is the first.
pub proof fn law_one_tool_is_the_first_of_its_name(
    tools: Seq<McpToolDef>,
    name: Seq<char>,
    k: int,
    m: int,
)
    requires
        first_named(tools, name, k),
        0 <= m < tools.len(),
        tools[m].name@ == name,
    ensures
        k <= m,
        tools[k].name@ == name,
{
}

} // verus!
