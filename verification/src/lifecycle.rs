//! The status transitions of `add --start`, `start`, `stop`, `revert` and
//! `done`, on the status columns of every task, and the laws they keep.
use vstd::prelude::*;
use crate::error::{CliError, is_user_error};
use crate::status::Status;
use crate::strs::{clone_opt, opt_view};
use crate::text::{i64_to_string, int_to_dec, push_str};

verus! {

/// The status columns of one task row.
#[derive(Debug)]
pub struct TaskState {
    pub status: Status,
    pub started_at: Option<String>,
    pub completed_at: Option<String>,
}

/// Two rows hold the same status columns.
pub open spec fn same_state(a: TaskState, b: TaskState) -> bool {
    a.status == b.status && opt_view(a.started_at) == opt_view(b.started_at)
        && opt_view(a.completed_at) == opt_view(b.completed_at)
}

/// `COALESCE(a, b)`.
pub open spec fn coalesce(a: Option<Seq<char>>, b: Seq<char>) -> Seq<char> {
    match a {
        Some(x) => x,
        None => b,
    }
}

fn copy_state(s: &TaskState) -> (r: TaskState)
    ensures
        same_state(r, *s),
{
    TaskState { status: s.status, started_at: clone_opt(&s.started_at), completed_at: clone_opt(&s.completed_at) }
}

fn copy_rows(rows: &Vec<TaskState>) -> (r: Vec<TaskState>)
    ensures
        r@.len() == rows@.len(),
        forall|j: int| 0 <= j < rows@.len() ==> same_state(#[trigger] r@[j], rows@[j]),
{
    let mut r: Vec<TaskState> = Vec::new();
    let mut j: usize = 0;
    while j < rows.len()
        invariant
            j <= rows@.len(),
            r@.len() == j,
            forall|x: int| 0 <= x < j ==> same_state(#[trigger] r@[x], rows@[x]),
        decreases rows@.len() - j,
    {
        r.push(copy_state(&rows[j]));
        j = j + 1;
    }
    r
}

/// `"task " + id + suffix`.
pub open spec fn task_msg_spec(id: i64, suffix: Seq<char>) -> Seq<char> {
    "task "@ + int_to_dec(id as int) + suffix
}

fn task_msg(id: i64, suffix: &str) -> (m: String)
    ensures
        m@ == task_msg_spec(id, suffix@),
{
    let mut m = "task ".to_string();
    let n = i64_to_string(id);
    push_str(&mut m, n.as_str());
    push_str(&mut m, suffix);
    m
}

/// What `start` does to row `j` when it moves row `i` to in progress.
pub open spec fn started_row(old: TaskState, new: TaskState, i: int, j: int, force: bool, now: Seq<char>) -> bool {
    if j == i {
        new.status == Status::InProgress
            && opt_view(new.started_at) == Some(coalesce(opt_view(old.started_at), now))
            && opt_view(new.completed_at) == opt_view(old.completed_at)
    } else if !force && old.status == Status::InProgress {
        new.status == Status::Partial && opt_view(new.started_at) == opt_view(old.started_at)
            && opt_view(new.completed_at) == opt_view(old.completed_at)
    } else {
        same_state(new, old)
    }
}

/// `start`: moves row `i` (display id `id`) to in progress. Without `force`
/// it refuses a task with unmet dependencies and pauses every other
/// in-progress task to partial (keeping its start time); a done task is
/// refused; a task already in progress is left as it is.
pub fn start(rows: &Vec<TaskState>, i: usize, id: i64, force: bool, blocked: bool, now: &String) -> (r: Result<Vec<TaskState>, CliError>)
    requires
        i < rows@.len(),
    ensures
        match r {
            Ok(new) => {
                &&& rows@[i as int].status != Status::Done
                &&& (force || !blocked || rows@[i as int].status == Status::InProgress)
                &&& new@.len() == rows@.len()
                &&& if rows@[i as int].status == Status::InProgress {
                    forall|j: int| 0 <= j < rows@.len() ==> same_state(#[trigger] new@[j], rows@[j])
                } else {
                    forall|j: int| 0 <= j < rows@.len() ==> started_row(rows@[j], #[trigger] new@[j], i as int, j, force, now@)
                }
            },
            Err(e) => {
                ||| rows@[i as int].status == Status::Done && is_user_error(e, task_msg_spec(id, " is already done"@))
                ||| rows@[i as int].status != Status::Done && rows@[i as int].status != Status::InProgress && !force && blocked
                    && is_user_error(e, task_msg_spec(id, " has unmet dependencies; pass --force to override"@))
            },
        },
{
    let cur = rows[i].status;
    if cur == Status::InProgress {
        return Ok(copy_rows(rows));
    }
    if cur == Status::Done {
        return Err(CliError::User(task_msg(id, " is already done")));
    }
    if !force && blocked {
        return Err(CliError::User(task_msg(id, " has unmet dependencies; pass --force to override")));
    }
    let mut out: Vec<TaskState> = Vec::new();
    let mut j: usize = 0;
    while j < rows.len()
        invariant
            i < rows@.len(),
            j <= rows@.len(),
            out@.len() == j,
            forall|x: int| 0 <= x < j ==> started_row(rows@[x], #[trigger] out@[x], i as int, x, force, now@),
        decreases rows@.len() - j,
    {
        let row = &rows[j];
        let next = if j == i {
            let st = match &row.started_at {
                Some(s) => s.clone(),
                None => now.clone(),
            };
            TaskState { status: Status::InProgress, started_at: Some(st), completed_at: clone_opt(&row.completed_at) }
        } else if !force && row.status == Status::InProgress {
            TaskState { status: Status::Partial, started_at: clone_opt(&row.started_at), completed_at: clone_opt(&row.completed_at) }
        } else {
            copy_state(row)
        };
        out.push(next);
        j = j + 1;
    }
    Ok(out)
}

/// `stop`: pauses an in-progress task to partial, keeping its start time; a
/// done task is refused; any other task is left as it is.
pub fn stop(rows: &Vec<TaskState>, i: usize, id: i64) -> (r: Result<Vec<TaskState>, CliError>)
    requires
        i < rows@.len(),
    ensures
        match r {
            Ok(new) => {
                &&& rows@[i as int].status != Status::Done
                &&& new@.len() == rows@.len()
                &&& forall|j: int| 0 <= j < rows@.len() && j != i ==> same_state(#[trigger] new@[j], rows@[j])
                &&& new@[i as int].status == (if rows@[i as int].status == Status::InProgress { Status::Partial } else { rows@[i as int].status })
                &&& opt_view(new@[i as int].started_at) == opt_view(rows@[i as int].started_at)
                &&& opt_view(new@[i as int].completed_at) == opt_view(rows@[i as int].completed_at)
            },
            Err(e) => rows@[i as int].status == Status::Done && is_user_error(e, task_msg_spec(id, " is done; cannot stop"@)),
        },
{
    if rows[i].status == Status::Done {
        return Err(CliError::User(task_msg(id, " is done; cannot stop")));
    }
    let mut out = copy_rows(rows);
    if rows[i].status == Status::InProgress {
        let row = TaskState {
            status: Status::Partial,
            started_at: clone_opt(&rows[i].started_at),
            completed_at: clone_opt(&rows[i].completed_at),
        };
        out.set(i, row);
    }
    Ok(out)
}

/// `revert`: sends a task back to pending and clears its start time; a done
/// task is refused.
pub fn revert(rows: &Vec<TaskState>, i: usize, id: i64) -> (r: Result<Vec<TaskState>, CliError>)
    requires
        i < rows@.len(),
    ensures
        match r {
            Ok(new) => {
                &&& rows@[i as int].status != Status::Done
                &&& new@.len() == rows@.len()
                &&& forall|j: int| 0 <= j < rows@.len() && j != i ==> same_state(#[trigger] new@[j], rows@[j])
                &&& new@[i as int].status == Status::Pending
                &&& new@[i as int].started_at is None
                &&& opt_view(new@[i as int].completed_at) == opt_view(rows@[i as int].completed_at)
            },
            Err(e) => rows@[i as int].status == Status::Done && is_user_error(e, task_msg_spec(id, " is done; cannot revert"@)),
        },
{
    if rows[i].status == Status::Done {
        return Err(CliError::User(task_msg(id, " is done; cannot revert")));
    }
    let mut out = copy_rows(rows);
    let row = TaskState { status: Status::Pending, started_at: None, completed_at: clone_opt(&rows[i].completed_at) };
    out.set(i, row);
    Ok(out)
}

/// The status `done` moves a task to.
pub open spec fn done_target(rejected: bool) -> Status {
    if rejected { Status::Rejected } else { Status::Done }
}

/// What `done` does to one row.
pub open spec fn done_row(old: TaskState, new: TaskState, rejected: bool, now: Seq<char>) -> bool {
    if old.status == done_target(rejected) {
        same_state(new, old)
    } else {
        new.status == done_target(rejected)
            && opt_view(new.completed_at) == Some(now)
            && opt_view(new.started_at) == Some(coalesce(opt_view(old.started_at), now))
    }
}

/// `done` (or `done --rejected`): closes a task, stamping its completion
/// time (and its start time when it never started). A task already in the
/// target status is left untouched.
pub fn done(rows: &Vec<TaskState>, i: usize, rejected: bool, now: &String) -> (new: Vec<TaskState>)
    requires
        i < rows@.len(),
    ensures
        new@.len() == rows@.len(),
        forall|j: int| 0 <= j < rows@.len() && j != i ==> same_state(#[trigger] new@[j], rows@[j]),
        done_row(rows@[i as int], new@[i as int], rejected, now@),
        new@[i as int].status == done_target(rejected),
        rows@[i as int].started_at is Some ==> opt_view(new@[i as int].started_at) == opt_view(rows@[i as int].started_at),
        rows@[i as int].started_at is None && rows@[i as int].status != done_target(rejected)
            ==> opt_view(new@[i as int].started_at) == Some(now@),
{
    let target = if rejected { Status::Rejected } else { Status::Done };
    let mut out = copy_rows(rows);
    if rows[i].status != target {
        let st = match &rows[i].started_at {
            Some(s) => s.clone(),
            None => now.clone(),
        };
        let row = TaskState { status: target, started_at: Some(st), completed_at: Some(now.clone()) };
        out.set(i, row);
    }
    out
}

/// What `add --start` does to an existing row before the new task is
/// inserted in progress: an in-progress task is paused to partial, keeping
/// its timestamps; any other row is left as it is.
pub open spec fn paused_row(old: TaskState, new: TaskState) -> bool {
    if old.status == Status::InProgress {
        new.status == Status::Partial && opt_view(new.started_at) == opt_view(old.started_at)
            && opt_view(new.completed_at) == opt_view(old.completed_at)
    } else {
        same_state(new, old)
    }
}

/// `add --start`: pauses every in-progress task to partial, so that the
/// task being added is the only one in progress.
pub fn pause_in_progress(rows: &Vec<TaskState>) -> (new: Vec<TaskState>)
    ensures
        new@.len() == rows@.len(),
        forall|j: int| 0 <= j < rows@.len() ==> paused_row(rows@[j], #[trigger] new@[j]),
{
    let mut out: Vec<TaskState> = Vec::new();
    let mut j: usize = 0;
    while j < rows.len()
        invariant
            j <= rows@.len(),
            out@.len() == j,
            forall|x: int| 0 <= x < j ==> paused_row(rows@[x], #[trigger] out@[x]),
        decreases rows@.len() - j,
    {
        let row = &rows[j];
        let next = if row.status == Status::InProgress {
            TaskState { status: Status::Partial, started_at: clone_opt(&row.started_at), completed_at: clone_opt(&row.completed_at) }
        } else {
            copy_state(row)
        };
        out.push(next);
        j = j + 1;
    }
    out
}

/// Number of rows in progress.
pub open spec fn in_progress_count(s: Seq<TaskState>) -> nat
    decreases s.len(),
{
    if s.len() == 0 {
        0
    } else {
        in_progress_count(s.drop_last()) + (if s.last().status == Status::InProgress { 1nat } else { 0nat })
    }
}

proof fn lemma_count_only(s: Seq<TaskState>, i: int)
    requires
        0 <= i < s.len(),
        s[i].status == Status::InProgress,
        forall|j: int| 0 <= j < s.len() && j != i ==> (#[trigger] s[j]).status != Status::InProgress,
    ensures
        in_progress_count(s) == 1,
    decreases s.len(),
{
    if i == s.len() - 1 {
        lemma_count_none(s.drop_last());
    } else {
        lemma_count_only(s.drop_last(), i);
    }
}

proof fn lemma_count_none(s: Seq<TaskState>)
    requires
        forall|j: int| 0 <= j < s.len() ==> (#[trigger] s[j]).status != Status::InProgress,
    ensures
        in_progress_count(s) == 0,
    decreases s.len(),
{
    if s.len() > 0 {
        lemma_count_none(s.drop_last());
    }
}

/// Starting a task that is not yet in progress without `--force` leaves it
/// the only task in progress.
pub proof fn law_start_leaves_one_in_progress(rows: Seq<TaskState>, new: Seq<TaskState>, i: int, now: Seq<char>)
    requires
        0 <= i < rows.len(),
        rows[i].status != Status::InProgress,
        new.len() == rows.len(),
        forall|j: int| 0 <= j < rows.len() ==> started_row(rows[j], #[trigger] new[j], i, j, false, now),
    ensures
        new[i].status == Status::InProgress,
        forall|j: int| 0 <= j < new.len() && j != i ==> (#[trigger] new[j]).status != Status::InProgress,
        in_progress_count(new) == 1,
{
    assert(started_row(rows[i], new[i], i, i, false, now));
    assert forall|j: int| 0 <= j < new.len() && j != i implies (#[trigger] new[j]).status != Status::InProgress by {
        assert(started_row(rows[j], new[j], i, j, false, now));
    }
    lemma_count_only(new, i);
}

/// Pausing (by `start` of another task, or by `stop`) keeps the start time:
/// no row `start` touches loses its start time.
pub proof fn law_start_keeps_start_times(rows: Seq<TaskState>, new: Seq<TaskState>, i: int, force: bool, now: Seq<char>)
    requires
        0 <= i < rows.len(),
        new.len() == rows.len(),
        forall|j: int| 0 <= j < rows.len() ==> started_row(rows[j], #[trigger] new[j], i, j, force, now),
    ensures
        forall|j: int| 0 <= j < rows.len() && (#[trigger] rows[j]).started_at is Some ==> opt_view(new[j].started_at) == opt_view(rows[j].started_at),
{
    assert forall|j: int| 0 <= j < rows.len() && (#[trigger] rows[j]).started_at is Some implies opt_view(new[j].started_at) == opt_view(rows[j].started_at) by {
        assert(started_row(rows[j], new[j], i, j, force, now));
    }
}

/// `add --start` leaves the new task the only one in progress: after the
/// pause no existing row is in progress, and the new row is.
pub proof fn law_add_start_leaves_one_in_progress(rows: Seq<TaskState>, new: Seq<TaskState>, added: TaskState)
    requires
        new.len() == rows.len(),
        forall|j: int| 0 <= j < rows.len() ==> paused_row(rows[j], #[trigger] new[j]),
        added.status == Status::InProgress,
    ensures
        in_progress_count(new) == 0,
        in_progress_count(new.push(added)) == 1,
{
    assert forall|j: int| 0 <= j < new.len() implies (#[trigger] new[j]).status != Status::InProgress by {
        assert(paused_row(rows[j], new[j]));
    }
    lemma_count_none(new);
    assert(new.push(added).drop_last() =~= new);
}

/// Law: `done` closes the task in the target status, stamping the
/// completion time when it changes the status; it keeps a start time the
/// task already has, and stamps one only when the task never started.
pub proof fn law_done_keeps_start_time(old: TaskState, new: TaskState, rejected: bool, now: Seq<char>)
    requires
        done_row(old, new, rejected, now),
    ensures
        new.status == (if rejected { Status::Rejected } else { Status::Done }),
        old.started_at is Some ==> opt_view(new.started_at) == opt_view(old.started_at),
        old.started_at is None && old.status != new.status ==> opt_view(new.started_at) == Some(now),
        old.status != new.status ==> opt_view(new.completed_at) == Some(now),
{
}

/// `done` is idempotent: a second `done` (at any later time) changes nothing.
pub proof fn law_done_idempotent(old: TaskState, once: TaskState, twice: TaskState, rejected: bool, now1: Seq<char>, now2: Seq<char>)
    requires
        done_row(old, once, rejected, now1),
        done_row(once, twice, rejected, now2),
    ensures
        same_state(twice, once),
{
}

} // verus!
