//! Task status: its five values, their database spelling, and the rank the
//! merge uses to decide between divergent status changes.
use vstd::prelude::*;
use crate::text::str_eq;

verus! {

/// Lifecycle of a task.
#[derive(Debug, Clone, Copy, PartialEq, Eq, Structural)]
pub enum Status {
    Pending,
    Partial,
    InProgress,
    Done,
    Rejected,
}

/// The database / JSON spelling of a status.
pub open spec fn status_name(s: Status) -> Seq<char> {
    match s {
        Status::Pending => "pending"@,
        Status::Partial => "partial"@,
        Status::InProgress => "in-progress"@,
        Status::Done => "done"@,
        Status::Rejected => "rejected"@,
    }
}

/// The status a database spelling denotes, if any.
pub open spec fn status_from_name(s: Seq<char>) -> Option<Status> {
    if s == "pending"@ {
        Some(Status::Pending)
    } else if s == "partial"@ {
        Some(Status::Partial)
    } else if s == "in-progress"@ {
        Some(Status::InProgress)
    } else if s == "done"@ {
        Some(Status::Done)
    } else if s == "rejected"@ {
        Some(Status::Rejected)
    } else {
        None
    }
}

impl Status {
    /// The database / JSON spelling of this status.
    pub fn as_str(&self) -> (r: &'static str)
        ensures
            r@ == status_name(*self),
    {
        match self {
            Status::Pending => "pending",
            Status::Partial => "partial",
            Status::InProgress => "in-progress",
            Status::Done => "done",
            Status::Rejected => "rejected",
        }
    }

    /// Parses a database spelling.
    pub fn parse(s: &str) -> (r: Option<Status>)
        ensures
            r == status_from_name(s@),
    {
        if str_eq(s, "pending") {
            Some(Status::Pending)
        } else if str_eq(s, "partial") {
            Some(Status::Partial)
        } else if str_eq(s, "in-progress") {
            Some(Status::InProgress)
        } else if str_eq(s, "done") {
            Some(Status::Done)
        } else if str_eq(s, "rejected") {
            Some(Status::Rejected)
        } else {
            None
        }
    }

    /// Still open: pending, partial or in progress.
    pub open spec fn spec_is_open(self) -> bool {
        self == Status::Pending || self == Status::Partial || self == Status::InProgress
    }

    pub fn is_open(&self) -> (r: bool)
        ensures
            r == self.spec_is_open(),
    {
        match self {
            Status::Pending | Status::Partial | Status::InProgress => true,
            _ => false,
        }
    }
}

/// How far along a status is: pending 0, partial and in-progress 1, done
/// and rejected 2; anything else counts as 0.
pub open spec fn rank_of(s: Seq<char>) -> int {
    if s == "pending"@ {
        0
    } else if s == "partial"@ || s == "in-progress"@ {
        1
    } else if s == "done"@ || s == "rejected"@ {
        2
    } else {
        0
    }
}

/// Rank of a status spelling (see `rank_of`).
pub fn status_rank(s: &str) -> (r: i32)
    ensures
        r as int == rank_of(s@),
{
    if str_eq(s, "pending") {
        0
    } else if str_eq(s, "partial") || str_eq(s, "in-progress") {
        1
    } else if str_eq(s, "done") || str_eq(s, "rejected") {
        2
    } else {
        0
    }
}

} // verus!
