//! Resolving vindexes: the caches they live in, the names they are found
//! under, and the rules for fetching and removing them.

pub mod dirs;
pub mod download;
pub mod entry;
pub mod error;
pub mod hub;
pub mod order;
pub mod path;
pub mod resolve;
pub mod rm_cmd;
pub mod scan;
pub mod text;
pub mod trusted;
