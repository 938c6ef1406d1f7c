//! What concerns the Pi-hole service itself rather than its database.

pub mod dns;
pub mod overrides;
