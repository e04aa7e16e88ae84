//! Verified core of a per-project, SQLite-backed TODO tracker.

pub mod error;
pub mod text;
pub mod graph;
pub mod status;
pub mod strs;
pub mod merge;
pub mod lifecycle;
pub mod strgraph;
pub mod deps;
pub mod doctor;
pub mod next_task;
pub mod refs;
pub mod edit;
pub mod cli;
pub mod schema;
pub mod task;
pub mod format;
pub mod dates;
pub mod cfd;
pub mod aging;
pub mod listing;
pub mod merge_laws;
pub mod merge_cmd;
pub mod completed;
pub mod resolve;
pub mod link_rows;
