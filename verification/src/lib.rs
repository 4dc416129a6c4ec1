//! Building blocks of a shell prompt that must stay fast: a one-pass index of
//! a directory's contents, and the bookkeeping that lets short-lived
//! processes share one background computation per repository through
//! marker files.

pub mod cache_model;
pub mod cache_paths;
pub mod clock;
pub mod dir_contents;
pub mod git_status_async;
pub mod names;
pub mod timings;
pub mod trie;
