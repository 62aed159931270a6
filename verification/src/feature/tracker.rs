//! The tracker vocabulary shared by the list, the filter and the picker.

use vstd::prelude::*;

pub mod kind;

verus! {

/// One issue, with the cheap fields the list shows. The description is
/// fetched separately so listing stays fast.
#[derive(Debug, Clone)]
pub struct Issue {
    pub key: String,
    pub summary: String,
    pub status: String,
    pub assignee: String,
    /// Issue type name (e.g. "Bug", "Task").
    pub kind: String,
}

/// A request to create a new issue.
#[derive(Debug, Clone)]
pub struct CreateRequest {
    pub kind: String,
    pub summary: String,
}

/// Anything that can list, describe and create issues. Errors are reported
/// as messages.
pub trait Tracker {
    /// The user's open issues (cheap fields only).
    fn list(&self) -> Result<Vec<Issue>, String>;

    /// One issue rendered to Markdown, ready for the preview renderer.
    fn describe(&self, key: &str) -> Result<String, String>;

    /// Create an issue and return its key.
    fn create(&self, req: &CreateRequest) -> Result<String, String>;
}

} // verus!
