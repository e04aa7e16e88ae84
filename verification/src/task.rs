//! A task as the commands show it: its columns, and what was looked up
//! about it (tags, the display ids of its dependencies and "see also"
//! tasks, whether a dependency is still open).
use vstd::prelude::*;

verus! {

#[derive(Debug)]
pub struct Task {
    pub id: i64,
    pub uuid: String,
    pub title: String,
    pub details: Option<String>,
    /// The database spelling of the status.
    pub status: String,
    pub priority: i64,
    pub is_gate: bool,
    pub tags: Vec<String>,
    /// Display ids of the tasks this one depends on.
    pub depends_on: Vec<i64>,
    /// Some dependency is neither done nor missing.
    pub blocked: bool,
    pub created_at: String,
    pub started_at: Option<String>,
    pub completed_at: Option<String>,
    pub location: Option<String>,
    pub project_name: Option<String>,
    pub implementation_client: Option<String>,
    /// Display ids of the tasks linked to this one as "see also"; filled
    /// only for single-task commands.
    pub related: Vec<i64>,
}

} // verus!
