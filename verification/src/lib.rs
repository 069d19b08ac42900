//! The verified core of a client-side git repository viewer.

pub mod archive;
pub mod assets;
pub mod bundle;
pub mod cache;
pub mod chrome;
pub mod error;
pub mod fetch;
pub mod fs;
pub mod import;
pub mod number;
pub mod object;
pub mod order;
pub mod pace;
pub mod paths;
pub mod render;
pub mod repo_url;
pub mod route;
pub mod stats;
pub mod text;
pub mod utf8;
