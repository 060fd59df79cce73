//! What an instance offers to the fleet.

pub mod skill_export;
