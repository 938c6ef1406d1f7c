//! Restores an exported Pi-hole backup: loads the table collections into the
//! gravity database and reconciles the local DNS override file.

pub mod archive;
pub mod error;
pub mod pihole;
pub mod plan;
pub mod store;
pub mod text;
pub mod types;
