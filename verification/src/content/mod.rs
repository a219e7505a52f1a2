//! Content collections: posts, notes, pages and "now" entries.

pub mod markdown;
pub mod note;
pub mod now;
pub mod page;
pub mod post;
