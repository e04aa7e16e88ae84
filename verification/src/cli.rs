//! The command line: its commands and options as plain values, and the
//! priority syntax (`1`..`5`, `P1`..`P5`, `p1`..`p5`).
use vstd::prelude::*;
use crate::text::{int_to_dec, parse_i64, parse_i64_spec, push_str, i64_to_string, trim, trim_spec};

verus! {

/// The text of a priority once trimmed and stripped of one leading `P`/`p`.
pub open spec fn priority_digits(s: Seq<char>) -> Seq<char> {
    let t = trim_spec(s);
    if t.len() > 0 && (t[0] == 'P' || t[0] == 'p') { t.drop_first() } else { t }
}

/// `invalid priority '<s>' (expected 1-5 or P1-P5)`.
pub open spec fn invalid_priority_msg(s: Seq<char>) -> Seq<char> {
    "invalid priority '"@ + s + "' (expected 1-5 or P1-P5)"@
}

/// `priority must be between 1 and 5 (got <n>)`.
pub open spec fn priority_range_msg(n: int) -> Seq<char> {
    "priority must be between 1 and 5 (got "@ + int_to_dec(n) + ")"@
}

/// Parses a priority value: `1`..`5`, `P1`..`P5` or `p1`..`p5`, with
/// surrounding white space allowed.
pub fn parse_priority(s: &str) -> (r: Result<i64, String>)
    ensures
        match parse_i64_spec(priority_digits(s@)) {
            None => r matches Err(m) && m@ == invalid_priority_msg(s@),
            Some(n) => if 1 <= n <= 5 {
                r == Ok::<i64, String>(n as i64)
            } else {
                r matches Err(m) && m@ == priority_range_msg(n)
            },
        },
{
    let t = trim(s);
    let digits: String = if t.unicode_len() > 0 && (t.get_char(0) == 'P' || t.get_char(0) == 'p') {
        let d = t.as_str().substring_char(1, t.unicode_len());
        assert(d@ =~= t@.drop_first());
        d.to_string()
    } else {
        t
    };
    match parse_i64(digits.as_str()) {
        None => {
            let mut m = "invalid priority '".to_string();
            push_str(&mut m, s);
            push_str(&mut m, "' (expected 1-5 or P1-P5)");
            Err(m)
        },
        Some(n) => {
            if 1 <= n && n <= 5 {
                Ok(n)
            } else {
                let mut m = "priority must be between 1 and 5 (got ".to_string();
                let d = i64_to_string(n);
                push_str(&mut m, d.as_str());
                push_str(&mut m, ")");
                Err(m)
            }
        },
    }
}

/// The parsed command line.
#[derive(Debug)]
pub struct Cli {
    /// Path to the database; overrides the environment and the marker file.
    pub db: Option<String>,
    /// Emit JSON.
    pub json: bool,
    pub command: Command,
}

/// The subcommands and their options.
#[derive(Debug)]
pub enum Command {
    Init {
        marker_dir: Option<String>,
    },
    Add {
        title: String,
        details: Option<String>,
        tags: Vec<String>,
        priority: i64,
        depends_on: Vec<String>,
        start: bool,
        gate: bool,
        location: Option<String>,
        related: Vec<String>,
        project_name: Option<String>,
        implementation_client: Option<String>,
    },
    List {
        status: String,
        tags: Vec<String>,
        project_name: Option<String>,
        limit: Option<i64>,
        format: String,
        since: Option<String>,
        ids_only: bool,
        verbose: bool,
        kind: String,
        unblocked: bool,
    },
    Next,
    Start {
        id: String,
        force: bool,
    },
    Stop {
        id: String,
    },
    Revert {
        id: String,
    },
    Done {
        id: String,
        rejected: bool,
    },
    Show {
        id: String,
        verbose: bool,
        format: String,
    },
    Edit {
        id: String,
        title: Option<String>,
        append_details: Option<String>,
        details: Option<String>,
        clear_details: bool,
        priority: Option<i64>,
        add_tag: Vec<String>,
        rm_tag: Vec<String>,
        add_dep: Vec<String>,
        rm_dep: Vec<String>,
        gate: bool,
        no_gate: bool,
        location: Option<String>,
        clear_location: bool,
        add_related: Vec<String>,
        rm_related: Vec<String>,
        project_name: Option<String>,
        clear_project_name: bool,
        implementation_client: Option<String>,
        clear_implementation_client: bool,
    },
    Renumber {
        id: String,
        new_id: i64,
        force: bool,
    },
    Rm {
        id: String,
    },
    ExportCompleted {
        since: Option<String>,
        until: Option<String>,
        pretty: bool,
        format: String,
    },
    Cfd {
        since: Option<String>,
        until: Option<String>,
        bucket: String,
        format: String,
    },
    Aging {
        stale_days: Option<i64>,
        tags: Vec<String>,
    },
    ExportTodo {
        format: String,
        verbose: bool,
    },
    Merge {
        base: Option<String>,
        ours: String,
        theirs: String,
        into: Option<String>,
        strict: bool,
    },
    GitMergeDriver {
        base: String,
        ours: String,
        theirs: String,
    },
    Doctor,
    InstallMergeDriver {
        dry_run: bool,
    },
}

} // verus!
