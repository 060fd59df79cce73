//! Building blocks of an agent runtime.
//!
//! The crate holds the decisions that an agent makes around its model and its
//! tools: which hint a message gets, how tool output is cut to size, which
//! request may leave the machine, in which order a plan runs. All of it works
//! on plain values; reading, sending and waiting are left to the program that
//! uses the crate.

pub mod agent;
pub mod clock;
pub mod config;
pub mod gateway;
pub mod hooks;
pub mod ids;
pub mod json;
pub mod mcp_server;
pub mod memory;
pub mod providers;
pub mod skills;
pub mod sorting;
pub mod text;
pub mod text_map;
pub mod tools;
