//! Hooks: decisions that observers make around model and tool calls.

pub mod builtin;
pub mod traits;
