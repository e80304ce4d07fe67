//! Tracks a set of on-disk git working copies and runs shell commands against
//! subsets of them, selected by tag.
//!
//! The core pieces are the tag filter (an OR of AND-groups over a repo's tag
//! set), the command builder (which decides how a user command is handed to
//! the shell), the output formatting for both streaming and oneline modes,
//! and the repository list with its TOML state format.

pub mod exec;
pub mod git;
pub mod gitopolis;
pub mod order;
pub mod repos;
pub mod state;
pub mod storage;
pub mod tag_filter;
pub mod text;
