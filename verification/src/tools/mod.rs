//! Tools that an agent calls, and what stands around them.

pub mod browser;
pub mod host;
pub mod http_request;
pub mod mcp_client;
pub mod mcp_protocol;
pub mod output_formatter;
pub mod page_scripts;
pub mod playwright_mcp;
pub mod recall;
pub mod remember;
pub mod task_planner;
pub mod traits;
pub mod wrappers;
