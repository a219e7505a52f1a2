//! Content API for paulmcbride.com: content indexes, note threading and
//! paging, Mastodon import helpers and media mirroring rules.

pub mod config;
pub mod content;
pub mod data;
pub mod duplicate;
pub mod front_matter;
pub mod http_status;
pub mod mastodon_sync;
pub mod media_mirror;
pub mod order;
pub mod sync_mastodon;
pub mod text;
pub mod time;
pub mod web;
