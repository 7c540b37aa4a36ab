//! Finds the build and cache artifacts that recognised kinds of project leave
//! behind in a directory tree, and plans their removal.
//!
//! The library works on plain values: a frozen listing of a directory, rules
//! made of glob patterns, and the answers that a caller got from the file
//! system. It decides which rules apply, which paths they select, which of
//! those are kept once nested matches are folded into their topmost
//! directory, and what each task has to do. Reading the disk, asking the
//! user and running commands are left to the caller.

pub mod activity;
pub mod age;
pub mod arguments;
pub mod catalog;
pub mod config;
pub mod context;
pub mod detection;
pub mod glob;
pub mod listing;
pub mod metrics;
pub mod path;
pub mod prune;
pub mod report;
pub mod rule;
pub mod task;
pub mod text;
