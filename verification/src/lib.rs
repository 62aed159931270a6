//! Verified core of the dev-tools command-line programs: text handling,
//! configuration and state logic for `aws-switch`, `feature` and `wt-gc`.

pub mod aws;
pub mod common;
pub mod feature;
pub mod json;
pub mod path;
pub mod text;
pub mod wt_gc;
