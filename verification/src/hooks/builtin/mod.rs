//! Hooks that come with the runtime.

pub mod tool_output_guard;
