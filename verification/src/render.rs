//! What each page shows, computed from what the repository holds.

pub mod about;
pub mod blame;
pub mod blob;
pub mod commit;
pub mod commits_table;
pub mod in_order;
pub mod lines;
pub mod listing;
pub mod log;
pub mod markdown;
pub mod query;
pub mod readme;
pub mod refs_all;
pub mod refs_heads;
pub mod refs_tags;
pub mod refs_table;
pub mod snapshot;
pub mod summary;
pub mod tag;
pub mod time;
pub mod tree;
