//! The `feature` tool: Jira issue listing, filtering, creation arguments,
//! description rendering, and the picker's state machine.

pub mod adf;
pub mod config;
pub mod tracker;
pub mod filter;
pub mod markdown;
pub mod jira;
pub mod ui;
pub mod panes;
pub mod branch;
