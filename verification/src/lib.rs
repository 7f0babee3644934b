//! A workspace manager for multi-repo git worktrees: the verified core.
pub mod cli;
pub mod completion;
pub mod config;
pub mod create;
pub mod mcp;
pub mod names;
pub mod ops;
pub mod paths;
pub mod pull;
pub mod reltime;
pub mod removal;
pub mod repos;
pub mod shown;
pub mod spaces;
pub mod status;
pub mod sync;
pub mod text;
pub mod worktree;
