//! MCP (Model Context Protocol) server for ZeroClaw.
//!
//! Exposes ZeroClaw's tools over MCP protocol. Supports stdio and HTTP+SSE
//! transports; what is read and written is left to the caller.

use vstd::prelude::*;

pub mod handlers;
pub mod transport;

verus! {

/// MCP server configuration.
#[derive(Debug, Clone)]
pub struct McpServerConfig {
    pub transport: TransportMode,
    pub port: u16,
    pub api_key: Option<String>,
    pub debug: bool,
    pub workspace_dir: String,
    /// Whether to expose the full ZeroClaw tool surface (web_fetch,
    /// http_request, calculator, memory_*, cron_*, …) to MCP clients.
    /// When `false`, only the default tools are exposed.
    pub expose_full_surface: bool,
}

#[derive(Debug, Clone, Copy, PartialEq, Eq, Structural)]
pub enum TransportMode {
    Stdio,
    Http,
}

} // verus!
