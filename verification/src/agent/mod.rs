//! The agent's own bookkeeping around its conversation.

pub mod checkpoint;
pub mod classifier;
pub mod eval_suite;
pub mod microcompactor;
pub mod session_state;
pub mod tool_executor;
pub mod tool_result_truncate;
