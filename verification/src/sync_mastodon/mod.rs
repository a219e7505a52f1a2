//! Importing Mastodon statuses as notes: reading statuses, writing note
//! files, and deciding what to fetch and what to import.

pub mod html;
pub mod yaml;
pub mod filename;
pub mod status;
pub mod config;
pub mod plan;
