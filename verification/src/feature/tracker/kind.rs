//! Well-known issue type names. Issues may carry any type string the server
//! returns; these are the ones the tool reasons about.

use vstd::prelude::*;

verus! {

/// The plain task type.
pub const TASK: &'static str = "Task";

/// The sub-task type (needs a parent, so it cannot be created here).
pub const SUBTASK: &'static str = "Sub-task";

} // verus!
