//! The first, simpler post service, kept for its callers.

pub mod posts;
