//! Configuration.

pub mod schema;
pub mod toml_table;
pub mod validate;
