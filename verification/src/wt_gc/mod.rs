//! The `wt-gc` tool: which linked worktrees are stale and safe to reclaim,
//! the trash's bookkeeping, reading `git`'s output, and the reports.

pub mod config;
pub mod git;
pub mod model;
pub mod report;
pub mod trash;
