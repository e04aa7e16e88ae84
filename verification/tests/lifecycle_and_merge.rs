use todo_sqlite::lifecycle::{done, pause_in_progress, revert, start, stop, TaskState};
use todo_sqlite::merge::{merge_task_lists, merge_tasks, must_abort, ConflictNote, MergeOptions, MergeReport, MergedTask, RawTask};
use todo_sqlite::merge_cmd::{conflict_line, conflict_line_with, written_tags, driver_outcome, driver_summary, merge_summary, merging_temp_name, strict_abort_error};
use todo_sqlite::format::task_text;
use todo_sqlite::status::Status;
use todo_sqlite::task::Task;

fn s(x: &str) -> String {
    x.to_string()
}

fn st(status: Status, started: Option<&str>, completed: Option<&str>) -> TaskState {
    TaskState { status, started_at: started.map(s), completed_at: completed.map(s) }
}

#[test]
fn start_pauses_the_other_in_progress_task() {
    let rows = vec![st(Status::InProgress, Some("T1"), None), st(Status::Pending, None, None)];
    let new = start(&rows, 1, 2, false, false, &s("T2")).unwrap();
    assert!(new[0].status == Status::Partial);
    assert_eq!(new[0].started_at, Some(s("T1")));
    assert!(new[1].status == Status::InProgress);
    assert_eq!(new[1].started_at, Some(s("T2")));
}

#[test]
fn force_overrides_single_in_progress() {
    let rows = vec![st(Status::InProgress, Some("T1"), None), st(Status::Pending, None, None)];
    let new = start(&rows, 1, 2, true, false, &s("T2")).unwrap();
    assert!(new[0].status == Status::InProgress);
    assert!(new[1].status == Status::InProgress);
}

#[test]
fn start_refuses_blocked_task_and_force_allows_it() {
    let rows = vec![st(Status::Pending, None, None), st(Status::Pending, None, None)];
    let e = start(&rows, 1, 2, false, true, &s("T")).unwrap_err();
    assert!(e.message().contains("unmet dependencies"));
    assert_eq!(e.message(), "task 2 has unmet dependencies; pass --force to override");
    assert!(start(&rows, 1, 2, true, true, &s("T")).is_ok());
}

#[test]
fn start_refuses_done_and_keeps_the_first_start_time() {
    let rows = vec![st(Status::Done, Some("T0"), Some("T1"))];
    assert_eq!(start(&rows, 0, 4, false, false, &s("T")).unwrap_err().message(), "task 4 is already done");
    let resumed = start(&vec![st(Status::Partial, Some("T0"), None)], 0, 4, false, false, &s("T9")).unwrap();
    assert_eq!(resumed[0].started_at, Some(s("T0")));
}

#[test]
fn done_is_idempotent() {
    let rows = vec![st(Status::Pending, None, None)];
    let once = done(&rows, 0, false, &s("2026-01-01T00:00:00Z"));
    let twice = done(&once, 0, false, &s("2026-01-01T00:00:01Z"));
    assert_eq!(twice[0].completed_at, Some(s("2026-01-01T00:00:00Z")));
    assert!(twice[0].status == Status::Done);
    let rej = done(&rows, 0, true, &s("T"));
    assert!(rej[0].status == Status::Rejected);
}

#[test]
fn stop_pauses_in_progress_and_preserves_started_at() {
    let rows = vec![st(Status::InProgress, Some("T1"), None)];
    let new = stop(&rows, 0, 1).unwrap();
    assert!(new[0].status == Status::Partial);
    assert_eq!(new[0].started_at, Some(s("T1")));
}

#[test]
fn stop_refuses_done_task() {
    let rows = vec![st(Status::Done, None, Some("T"))];
    let e = stop(&rows, 0, 1).unwrap_err();
    assert_eq!(e.exit_code(), 1);
    assert_eq!(e.message(), "task 1 is done; cannot stop");
}

#[test]
fn revert_clears_started_at() {
    let rows = vec![st(Status::InProgress, Some("T1"), None)];
    let new = revert(&rows, 0, 1).unwrap();
    assert!(new[0].status == Status::Pending);
    assert!(new[0].started_at.is_none());
}

#[test]
fn revert_refuses_done_task() {
    let rows = vec![st(Status::Done, None, Some("T"))];
    let e = revert(&rows, 0, 1).unwrap_err();
    assert_eq!(e.exit_code(), 1);
}

fn raw(uuid: &str, id: i64, title: &str) -> RawTask {
    RawTask {
        uuid: s(uuid),
        id,
        title: s(title),
        details: None,
        status: s("pending"),
        priority: 3,
        is_gate: false,
        created_at: s("2026-01-01T00:00:00Z"),
        started_at: None,
        completed_at: None,
        location: None,
        project_name: None,
        implementation_client: None,
        tags: Vec::new(),
        deps: Vec::new(),
        related: Vec::new(),
    }
}

fn find<'a>(out: &'a [MergedTask], uuid: &str) -> &'a MergedTask {
    out.iter().find(|m| m.uuid == uuid).unwrap()
}

#[test]
fn one_side_field_changes_both_carry_over() {
    let base = vec![raw("u1", 1, "shared task")];
    let mut ours = base[0].clone_raw();
    ours.status = s("in-progress");
    ours.started_at = Some(s("T1"));
    let mut theirs = base[0].clone_raw();
    theirs.details = Some(s("from theirs"));
    let mut report = MergeReport::new();
    let out = merge_tasks(&base, &vec![ours], &vec![theirs], &mut report);
    let m = find(&out, "u1");
    assert_eq!(m.status, "in-progress");
    assert_eq!(m.details, Some(s("from theirs")));
    assert!(report.conflicts.is_empty());
}

#[test]
fn same_field_conflict_keeps_ours_and_tags() {
    let base = vec![raw("u1", 1, "base title")];
    let mut ours = base[0].clone_raw();
    ours.title = s("ours title");
    let mut theirs = base[0].clone_raw();
    theirs.title = s("theirs title");
    let mut report = MergeReport::new();
    let out = merge_tasks(&base, &vec![ours], &vec![theirs], &mut report);
    let m = find(&out, "u1");
    assert_eq!(m.title, "ours title");
    assert!(m.conflict);
    assert_eq!(report.conflicts.len(), 1);
    assert_eq!(report.conflicts[0].field, "title");
    assert!(merge_summary("merged.db", &report).contains("conflicts: 1"));
}

#[test]
fn status_rank_resolves_divergent_status_changes() {
    let base = vec![raw("u1", 1, "task")];
    let mut ours = base[0].clone_raw();
    ours.status = s("partial");
    ours.started_at = Some(s("T1"));
    let mut theirs = base[0].clone_raw();
    theirs.status = s("done");
    theirs.completed_at = Some(s("T2"));
    let mut report = MergeReport::new();
    let out = merge_tasks(&base, &vec![ours], &vec![theirs], &mut report);
    let m = find(&out, "u1");
    assert_eq!(m.status, "done");
    assert!(!m.conflict);
    assert!(report.conflicts.is_empty());
}

#[test]
fn deleted_in_one_side_modified_in_other_is_flagged_and_kept() {
    let base = vec![raw("u1", 1, "task")];
    let mut theirs = base[0].clone_raw();
    theirs.priority = 1;
    let mut report = MergeReport::new();
    let out = merge_tasks(&base, &Vec::new(), &vec![theirs], &mut report);
    assert_eq!(out.len(), 1, "modified side should win over deletion");
    assert_eq!(out[0].priority, 1);
    assert_eq!(report.conflicts.len(), 1);
    assert!(merge_summary("m.db", &report).contains("conflicts: 1"));
}

#[test]
fn deleted_both_sides_drops_cleanly() {
    let base = vec![raw("u1", 1, "task"), raw("u2", 2, "other")];
    let keep = vec![base[1].clone_raw()];
    let mut report = MergeReport::new();
    let out = merge_tasks(&base, &keep, &vec![base[1].clone_raw()], &mut report);
    assert_eq!(out.len(), 1);
    assert_eq!(out[0].uuid, "u2");
    assert!(report.conflicts.is_empty());
}

#[test]
fn unchanged_deletion_wins() {
    let base = vec![raw("u1", 1, "task")];
    let mut report = MergeReport::new();
    let out = merge_tasks(&base, &Vec::new(), &vec![base[0].clone_raw()], &mut report);
    assert!(out.is_empty());
}

#[test]
fn new_tasks_on_both_sides_keep_their_own_duplicate_display_id() {
    let ours = vec![raw("ua", 5, "ours new")];
    let theirs = vec![raw("ub", 5, "theirs new")];
    let mut report = MergeReport::new();
    let out = merge_tasks(&Vec::new(), &ours, &theirs, &mut report);
    assert_eq!(out.len(), 2);
    assert_eq!(find(&out, "ua").id, 5);
    assert_eq!(find(&out, "ub").id, 5);
    assert_eq!(report.tasks_total, 2);
}

#[test]
fn two_way_merge_without_base_reconciles_shared_uuid_and_unions_new() {
    let mut shared_o = raw("us", 1, "shared");
    shared_o.tags = vec![s("a")];
    let mut shared_t = raw("us", 1, "shared");
    shared_t.tags = vec![s("b")];
    let ours = vec![shared_o, raw("uo", 2, "only ours")];
    let theirs = vec![shared_t, raw("ut", 2, "only theirs")];
    let mut report = MergeReport::new();
    let out = merge_tasks(&Vec::new(), &ours, &theirs, &mut report);
    assert_eq!(out.len(), 3);
    let mut tags = find(&out, "us").tags.clone();
    tags.sort();
    assert_eq!(tags, vec![s("a"), s("b")]);
    assert!(report.conflicts.is_empty());
}

#[test]
fn related_link_added_by_one_side_stays_mutual_after_merge() {
    let base = vec![raw("ua", 1, "a"), raw("ub", 2, "b")];
    let mut oa = base[0].clone_raw();
    oa.related = vec![s("ub")];
    let ours = vec![oa, base[1].clone_raw()];
    let theirs = vec![base[0].clone_raw(), base[1].clone_raw()];
    let mut report = MergeReport::new();
    let out = merge_tasks(&base, &ours, &theirs, &mut report);
    assert_eq!(find(&out, "ua").related, vec![s("ub")]);
    assert_eq!(find(&out, "ub").related, vec![s("ua")]);
}

#[test]
fn dep_union_that_would_cycle_drops_the_new_edge() {
    let base = vec![raw("ua", 1, "a"), raw("ub", 2, "b")];
    let mut oa = base[0].clone_raw();
    oa.deps = vec![s("ub")];
    let mut tb = base[1].clone_raw();
    tb.deps = vec![s("ua")];
    let ours = vec![oa, base[1].clone_raw()];
    let theirs = vec![base[0].clone_raw(), tb];
    let mut report = MergeReport::new();
    let out = merge_tasks(&base, &ours, &theirs, &mut report);
    let a_deps = find(&out, "ua").deps.len();
    let b_deps = find(&out, "ub").deps.len();
    assert_eq!(a_deps + b_deps, 1, "exactly one of the two edges survives");
}

#[test]
fn strict_mode_aborts_and_writes_nothing_on_conflict() {
    let base = vec![raw("u1", 1, "t")];
    let mut ours = base[0].clone_raw();
    ours.title = s("x");
    let mut theirs = base[0].clone_raw();
    theirs.title = s("y");
    let mut report = MergeReport::new();
    let _ = merge_tasks(&base, &vec![ours], &vec![theirs], &mut report);
    assert!(must_abort(&report, MergeOptions { strict: true }));
    assert!(!must_abort(&report, MergeOptions { strict: false }));
    assert_eq!(
        strict_abort_error(&report).message(),
        "1 conflict(s) found; aborting (--strict). Re-run without --strict to auto-resolve and flag them with the 'merge-conflict' tag."
    );
    assert_eq!(driver_summary(&report), "todo-sqlite-cli: merged 1 task(s), 1 conflict(s)\n");
    assert!(driver_outcome(&report).is_err());
}

#[test]
fn merge_into_defaults_to_overwriting_ours() {
    assert_eq!(merging_temp_name(&Some(s("ours.db"))), ".ours.db.merging.tmp");
    assert_eq!(merging_temp_name(&None), ".merged.merging.tmp");
    let report = MergeReport::new();
    assert_eq!(merge_summary("ours.db", &report), "merged into ours.db\ntasks: 0\nconflicts: 0\n");
    assert!(driver_outcome(&report).is_ok());
}

trait CloneRaw {
    fn clone_raw(&self) -> RawTask;
}

impl CloneRaw for RawTask {
    fn clone_raw(&self) -> RawTask {
        RawTask {
            uuid: self.uuid.clone(),
            id: self.id,
            title: self.title.clone(),
            details: self.details.clone(),
            status: self.status.clone(),
            priority: self.priority,
            is_gate: self.is_gate,
            created_at: self.created_at.clone(),
            started_at: self.started_at.clone(),
            completed_at: self.completed_at.clone(),
            location: self.location.clone(),
            project_name: self.project_name.clone(),
            implementation_client: self.implementation_client.clone(),
            tags: self.tags.clone(),
            deps: self.deps.clone(),
            related: self.related.clone(),
        }
    }
}

#[test]
fn conflict_line_quotes_both_values_like_debug() {
    let c = ConflictNote {
        task_id: 7,
        field: "title".to_string(),
        ours: "fix \"login\"".to_string(),
        theirs: "plain".to_string(),
        resolution: "kept ours".to_string(),
    };
    assert_eq!(
        conflict_line(&c),
        "  task 7: title — ours=\"fix \\\"login\\\"\" theirs=\"plain\" (kept ours)\n"
    );
    assert_eq!(conflict_line_with(&c, "A", "B"), "  task 7: title — ours=A theirs=B (kept ours)\n");
}

#[test]
fn merge_notes_record_each_clash_in_order() {
    let base = vec![raw("u1", 1, "one"), raw("u2", 2, "two")];
    let mut o1 = base[0].clone_raw();
    o1.title = s("one ours");
    o1.is_gate = true;
    let mut t1 = base[0].clone_raw();
    t1.title = s("one theirs");
    let mut t2 = base[1].clone_raw();
    t2.priority = 1;
    let mut report = MergeReport::new();
    let _ = merge_tasks(&base, &vec![o1], &vec![t1, t2], &mut report);
    let notes: Vec<(i64, &str, &str, &str, &str)> = report
        .conflicts
        .iter()
        .map(|c| (c.task_id, c.field.as_str(), c.ours.as_str(), c.theirs.as_str(), c.resolution.as_str()))
        .collect();
    assert_eq!(
        notes,
        vec![
            (1, "title", "one ours", "one theirs", "kept ours"),
            (2, "existence", "deleted", "modified", "kept theirs (modified) over ours' deletion"),
        ]
    );
}

#[test]
fn stop_then_start_is_allowed_for_other_tasks() {
    let rows = vec![st(Status::Pending, None, None), st(Status::Pending, None, None)];
    let started = start(&rows, 0, 1, false, false, &s("T1")).unwrap();
    let stopped = stop(&started, 0, 1).unwrap();
    let again = start(&stopped, 1, 2, false, false, &s("T2")).unwrap();
    assert!(again[1].status == Status::InProgress);
    assert!(again[0].status == Status::Partial);
}

fn shown(m: &MergedTask) -> Task {
    Task {
        id: m.id,
        uuid: m.uuid.clone(),
        title: m.title.clone(),
        details: m.details.clone(),
        status: m.status.clone(),
        priority: m.priority,
        is_gate: m.is_gate,
        tags: m.tags.clone(),
        depends_on: Vec::new(),
        blocked: false,
        created_at: m.created_at.clone(),
        started_at: m.started_at.clone(),
        completed_at: m.completed_at.clone(),
        location: m.location.clone(),
        project_name: m.project_name.clone(),
        implementation_client: m.implementation_client.clone(),
        related: Vec::new(),
    }
}

#[test]
fn implementation_client_survives_a_clean_two_way_merge() {
    let mut a = raw("u1", 1, "task a");
    a.implementation_client = Some(s("worker-1"));
    let mut report = MergeReport::new();
    let out = merge_tasks(&Vec::new(), &vec![a.clone_raw()], &vec![a.clone_raw()], &mut report);
    assert!(report.conflicts.is_empty());
    assert!(task_text(&shown(find(&out, "u1")), false).contains("Client: worker-1"));
}

#[test]
fn project_name_survives_a_clean_two_way_merge() {
    let mut a = raw("u1", 1, "task a");
    a.project_name = Some(s("widgets"));
    let mut report = MergeReport::new();
    let out = merge_tasks(&Vec::new(), &vec![a.clone_raw()], &vec![a.clone_raw()], &mut report);
    assert!(report.conflicts.is_empty());
    assert!(task_text(&shown(find(&out, "u1")), false).contains("Project: widgets"));
}

#[test]
fn a_hard_conflict_is_written_with_the_merge_conflict_tag() {
    let mut b = raw("u1", 1, "task");
    b.tags = vec![s("auth")];
    let mut ours = b.clone_raw();
    ours.title = s("ours title");
    let mut theirs = b.clone_raw();
    theirs.title = s("theirs title");
    let mut report = MergeReport::new();
    let out = merge_tasks(&vec![b.clone_raw()], &vec![ours], &vec![theirs], &mut report);
    assert_eq!(written_tags(find(&out, "u1")), vec![s("auth"), s("merge-conflict")]);
    let mut report2 = MergeReport::new();
    let clean = merge_tasks(&vec![b.clone_raw()], &vec![b.clone_raw()], &vec![b.clone_raw()], &mut report2);
    assert_eq!(written_tags(find(&clean, "u1")), vec![s("auth")]);
}

#[test]
fn both_sides_changing_priority_keeps_the_more_urgent() {
    let base = vec![raw("u1", 1, "task")];
    let mut ours = base[0].clone_raw();
    ours.priority = 4;
    let mut theirs = base[0].clone_raw();
    theirs.priority = 2;
    let mut report = MergeReport::new();
    let out = merge_tasks(&base, &vec![ours], &vec![theirs], &mut report);
    let m = find(&out, "u1");
    assert_eq!(m.priority, 2);
    assert!(!m.conflict);
    assert!(report.conflicts.is_empty());
    assert_eq!(report.auto_resolved, 1);
}

#[test]
fn add_start_pauses_the_task_in_progress() {
    let rows = vec![st(Status::InProgress, Some("T1"), None), st(Status::Pending, None, None), st(Status::Done, Some("T0"), Some("T2"))];
    let new = pause_in_progress(&rows);
    assert!(new[0].status == Status::Partial);
    assert_eq!(new[0].started_at, Some(s("T1")));
    assert!(new[1].status == Status::Pending);
    assert!(new[2].status == Status::Done);
    assert_eq!(new[2].completed_at, Some(s("T2")));
    assert!(new.iter().all(|r| r.status != Status::InProgress));
}

#[test]
fn swapping_sides_gives_the_same_merge() {
    let base = vec![raw("u1", 1, "task")];
    let mut ours = base[0].clone_raw();
    ours.status = s("partial");
    ours.priority = 4;
    ours.tags = vec![s("a")];
    let mut theirs = base[0].clone_raw();
    theirs.status = s("in-progress");
    theirs.priority = 2;
    theirs.tags = vec![s("b")];
    let mut r1 = MergeReport::new();
    let m1 = merge_tasks(&base, &vec![ours.clone_raw()], &vec![theirs.clone_raw()], &mut r1);
    let mut r2 = MergeReport::new();
    let m2 = merge_tasks(&base, &vec![theirs], &vec![ours], &mut r2);
    let (a, b) = (find(&m1, "u1"), find(&m2, "u1"));
    assert_eq!(a.status, "in-progress");
    assert_eq!(a.status, b.status);
    assert_eq!(a.priority, b.priority);
    assert_eq!(a.is_gate, b.is_gate);
    let mut ta = a.tags.clone();
    ta.sort();
    let mut tb = b.tags.clone();
    tb.sort();
    assert_eq!(ta, tb);
    assert_eq!(a.conflict, b.conflict);
    assert_eq!(r1.auto_resolved, r2.auto_resolved);
}

#[test]
fn merging_lists_with_a_repeated_uuid_is_refused() {
    let twice = vec![raw("u1", 1, "a"), raw("u1", 2, "b")];
    let mut report = MergeReport::new();
    let e = merge_task_lists(&Vec::new(), &twice, &Vec::new(), &mut report).unwrap_err();
    assert_eq!(e.message(), "database holds a repeated uuid");
    assert_eq!(report.tasks_total, 0);
    let mut ours = raw("u1", 1, "a");
    ours.deps = vec![s("u2")];
    let mut theirs = raw("u2", 2, "b");
    theirs.deps = vec![s("u1")];
    let mut report2 = MergeReport::new();
    let out = merge_task_lists(&Vec::new(), &vec![ours], &vec![theirs], &mut report2).unwrap();
    assert_eq!(out.len(), 2);
    let edges: usize = out.iter().map(|m| m.deps.len()).sum();
    assert_eq!(edges, 1, "one of the two edges closing the cycle is dropped");
}
