//! What an agent keeps between turns and sessions.

pub mod customer_model;
pub mod dreaming;
pub mod outcomes;
pub mod procedural;
