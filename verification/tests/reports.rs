use todo_sqlite::aging::{aging_order, aging_text, is_stale, AgingRow};
use todo_sqlite::cfd::{bucket_days, bucket_step, cfd_buckets, cfd_since_day, cfd_until_day, flow_counts, render_buckets, FlowRow};
use todo_sqlite::dates::{date_prefix, parse_date_bound, parse_date_only};
use todo_sqlite::doctor::{asymmetric_related_rows, doctor_verdict, order_by_id, render_report, DoctorReport, DuplicateId, TaskRef};
use todo_sqlite::next_task::{has_open_gate, select_next, Candidate};
use todo_sqlite::status::Status;
use todo_sqlite::strgraph::Link;

fn s(x: &str) -> String {
    x.to_string()
}

fn day(d: &str) -> i64 {
    parse_date_only(d).unwrap()
}

fn row(created: &str, started: Option<&str>, completed: Option<&str>, status: &str) -> FlowRow {
    FlowRow {
        status: s(status),
        created_at: s(created),
        started_at: started.map(s),
        completed_at: completed.map(s),
    }
}

#[test]
fn cfd_reconstructs_counts_across_transitions() {
    let rows = vec![
        row("2026-08-01T00:00:00Z", None, None, "pending"),
        row("2026-08-01T00:00:00Z", Some("2026-08-06T00:00:00Z"), None, "in-progress"),
        row("2026-08-01T00:00:00Z", Some("2026-08-02T00:00:00Z"), Some("2026-08-10T00:00:00Z"), "done"),
    ];
    let buckets = cfd_buckets(&rows, day("2026-08-01"), day("2026-08-12"), 1).unwrap();
    let find = |date: &str| buckets.iter().find(|b| b.date == date).unwrap_or_else(|| panic!("missing bucket {date}"));
    let day1 = find("2026-08-01");
    assert_eq!(day1.backlog, 3);
    assert_eq!(day1.in_progress, 0);
    assert_eq!(day1.done, 0);
    let day6 = find("2026-08-06");
    assert_eq!(day6.backlog, 1);
    assert_eq!(day6.in_progress, 2);
    assert_eq!(day6.done, 0);
    let day12 = find("2026-08-12");
    assert_eq!(day12.backlog, 1);
    assert_eq!(day12.in_progress, 1);
    assert_eq!(day12.done, 1);
    assert_eq!(buckets.len(), 12);
}

#[test]
fn cfd_bucket_dates_always_include_until_boundary() {
    let rows: Vec<FlowRow> = Vec::new();
    let step = bucket_step("week").unwrap();
    let buckets = cfd_buckets(&rows, day("2026-08-01"), day("2026-08-10"), step).unwrap();
    let dates: Vec<&str> = buckets.iter().map(|b| b.date.as_str()).collect();
    assert_eq!(dates.first(), Some(&"2026-08-01"));
    assert_eq!(dates.last(), Some(&"2026-08-10"));
    assert_eq!(dates, vec!["2026-08-01", "2026-08-08", "2026-08-10"]);
}

#[test]
fn cfd_reverted_task_with_cleared_started_at_counts_as_backlog() {
    let rows = vec![row("2026-08-01T00:00:00Z", None, None, "pending")];
    let (backlog, in_progress, _, _) = flow_counts(&rows, "2026-08-01T23:59:59Z");
    assert_eq!(backlog, 1);
    assert_eq!(in_progress, 0);
}

#[test]
fn cfd_rejects_since_after_until() {
    let rows: Vec<FlowRow> = Vec::new();
    let e = cfd_buckets(&rows, day("2026-08-10"), day("2026-08-01"), 1).unwrap_err();
    assert_eq!(e.message(), "--since (2026-08-10) must not be after --until (2026-08-01)");
}

#[test]
fn cfd_rejects_invalid_bucket() {
    let e = bucket_step("month").unwrap_err();
    assert_eq!(e.message(), "invalid --bucket 'month' (expected day|week)");
    assert_eq!(bucket_step("day").unwrap(), 1);
}

#[test]
fn cfd_csv_has_header_and_row_per_bucket() {
    let rows: Vec<FlowRow> = Vec::new();
    let buckets = cfd_buckets(&rows, day("2026-08-01"), day("2026-08-03"), 1).unwrap();
    let csv = render_buckets(&buckets, true);
    let lines: Vec<&str> = csv.lines().collect();
    assert_eq!(lines[0], "date,backlog,in_progress,done,rejected");
    assert_eq!(lines.len(), 4);
    assert_eq!(lines[1], "2026-08-01,0,0,0,0");
    let ascii = render_buckets(&buckets, false);
    assert_eq!(ascii.lines().next(), Some("2026-08-01  backlog=0  in_progress=0  done=0  rejected=0"));
}

#[test]
fn bucket_days_step_past_until() {
    assert_eq!(bucket_days(10, 10, 7), vec![10]);
    assert_eq!(bucket_days(1, 9, 7), vec![1, 8, 9]);
    assert_eq!(bucket_days(1, 8, 7), vec![1, 8]);
}

#[test]
fn date_bounds_normalize_to_utc_seconds() {
    assert_eq!(parse_date_bound("2026-08-01").unwrap(), "2026-08-01T00:00:00Z");
    assert_eq!(parse_date_bound("2026-08-01T02:00:00+02:00").unwrap(), "2026-08-01T00:00:00Z");
    let e = parse_date_bound("yesterday").unwrap_err();
    assert_eq!(e.message(), "invalid date 'yesterday' (expected YYYY-MM-DD or RFC3339)");
    assert_eq!(day("2026-08-01T23:00:00-02:00"), day("2026-08-02"));
    let rows: Vec<FlowRow> = Vec::new();
    assert_eq!(cfd_buckets(&rows, day("2026-08-01"), day("2026-08-01"), 1).unwrap()[0].date, "2026-08-01");
    assert_eq!(date_prefix("2026-08-01T00:00:00Z"), "2026-08-01");
    assert_eq!(date_prefix("no-t-here"), "no-t-here");
}

fn aging_row(id: i64, priority: i64, age: i64, gate: bool, stale_days: Option<i64>) -> AgingRow {
    AgingRow {
        id,
        title: format!("task {id}"),
        status: s("pending"),
        priority,
        tags: Vec::new(),
        created_at: s("2000-01-01T00:00:00Z"),
        is_gate: gate,
        age_days: age,
        stale: is_stale(age, gate, stale_days),
    }
}

#[test]
fn aging_stale_days_flags_old_tasks() {
    let r = aging_row(1, 3, 9000, false, Some(1000));
    assert!(r.stale);
    assert!(!aging_row(2, 3, 0, false, Some(1000)).stale);
}

#[test]
fn aging_without_stale_days_never_flags() {
    assert!(!aging_row(1, 3, 9000, false, None).stale);
}

#[test]
fn aging_never_flags_a_gate_stale() {
    let r = aging_row(1, 3, 9000, true, Some(1));
    assert!(!r.stale);
    assert!(r.is_gate);
}

#[test]
fn aging_sorted_oldest_first() {
    let rows = vec![aging_row(1, 3, 10, false, None), aging_row(2, 3, 9000, false, None)];
    let order = aging_order(&rows);
    assert_eq!(order, vec![1, 0]);
}

#[test]
fn aging_order_breaks_ties_by_priority_then_position() {
    let rows = vec![
        aging_row(1, 3, 5, false, None),
        aging_row(2, 1, 5, false, None),
        aging_row(3, 3, 5, false, None),
        aging_row(4, 2, 7, false, None),
    ];
    assert_eq!(aging_order(&rows), vec![3, 1, 0, 2]);
}

#[test]
fn aging_table_format_is_human_readable() {
    let mut r = aging_row(1, 3, 12, false, Some(10));
    r.title = s("plain text task");
    r.tags = vec![s("a")];
    let line = aging_text(&r);
    assert!(line.contains("age="));
    assert!(line.contains("plain text task"));
    assert_eq!(line, "   1  pending      P3  age=  12d  plain text task [a] [STALE]\n");
}

fn cand(id: i64, status: Status, priority: i64, gate: bool, blocked: bool) -> Candidate {
    Candidate {
        status,
        is_gate: gate,
        blocked,
        priority,
        id,
        started_at: None,
        created_at: format!("2026-01-{:02}T00:00:00Z", id),
    }
}

#[test]
fn next_skips_unblocked_gate_and_falls_through_to_real_task() {
    let cs = vec![cand(1, Status::Pending, 1, true, false), cand(2, Status::Pending, 3, false, false)];
    assert_eq!(select_next(&cs), Some(1));
}

#[test]
fn next_reports_nothing_when_only_gates_remain() {
    let cs = vec![cand(1, Status::Pending, 3, true, false)];
    assert_eq!(select_next(&cs), None);
    assert!(has_open_gate(&cs));
}

#[test]
fn next_skips_blocked_pending_tasks() {
    let cs = vec![
        cand(1, Status::Pending, 3, false, false),
        cand(2, Status::Pending, 1, false, true),
        cand(3, Status::Pending, 3, false, false),
    ];
    let pick = select_next(&cs).unwrap();
    assert_ne!(pick, 1, "should not recommend blocked task");
    assert_eq!(pick, 0);
}

#[test]
fn next_prefers_in_progress_over_higher_priority_pending() {
    let mut running = cand(1, Status::InProgress, 5, false, false);
    running.started_at = Some(s("2026-01-01T00:00:00Z"));
    let cs = vec![running, cand(2, Status::Pending, 1, false, false)];
    assert_eq!(select_next(&cs), Some(0));
}

#[test]
fn next_resumes_partial_before_pending_and_oldest_start_first() {
    let mut p1 = cand(1, Status::Partial, 2, false, false);
    p1.started_at = Some(s("2026-01-05T00:00:00Z"));
    let mut p2 = cand(2, Status::Partial, 2, false, false);
    p2.started_at = Some(s("2026-01-03T00:00:00Z"));
    let cs = vec![cand(3, Status::Pending, 1, false, false), p1, p2];
    assert_eq!(select_next(&cs), Some(2));
    assert!(!has_open_gate(&cs));
}

fn tref(id: i64, uuid: &str, title: &str) -> TaskRef {
    TaskRef { id, uuid: s(uuid), title: s(title) }
}

#[test]
fn clean_db_exits_zero_and_reports_clean() {
    let r = DoctorReport::new();
    assert!(r.is_clean());
    assert!(doctor_verdict(&r).is_ok());
    assert_eq!(render_report(&r), "doctor: clean\n");
}

#[test]
fn duplicate_display_id_is_flagged_and_exits_nonzero() {
    let mut r = DoctorReport::new();
    r.duplicate_display_ids.push(DuplicateId { id: 1, tasks: vec![tref(1, "u1", "first"), tref(1, "u2", "second")] });
    assert!(!r.is_clean());
    let e = doctor_verdict(&r).unwrap_err();
    assert_eq!(e.exit_code(), 1);
    let text = render_report(&r);
    assert!(text.contains("duplicate display ids"), "stdout: {text:?}");
    assert_eq!(
        text,
        "duplicate display ids (1) — show/edit by uuid to disambiguate:\n  id=1 uuid=u1 title=first\n  id=1 uuid=u2 title=second\n"
    );
}

#[test]
fn asymmetric_related_row_is_flagged() {
    let rows = vec![Link { from: s("a"), to: s("b") }];
    let mut r = DoctorReport::new();
    r.asymmetric_related_rows = asymmetric_related_rows(&rows);
    assert_eq!(r.asymmetric_related_rows, 1);
    assert!(!r.is_clean());
    assert!(render_report(&r).contains("asymmetric related rows"));
    let mirrored = vec![Link { from: s("a"), to: s("b") }, Link { from: s("b"), to: s("a") }];
    assert_eq!(asymmetric_related_rows(&mirrored), 0);
}

#[test]
fn orphaned_related_row_is_flagged() {
    let mut r = DoctorReport::new();
    r.orphaned_related_rows = 1;
    let text = render_report(&r);
    assert!(text.contains("orphaned related rows"), "stdout: {text:?}");
    assert!(doctor_verdict(&r).is_err());
}

#[test]
fn unresolved_merge_conflict_tag_is_flagged() {
    let mut r = DoctorReport::new();
    r.unresolved_merge_conflicts.push(tref(3, "u3", "conflicted"));
    let text = render_report(&r);
    assert!(text.contains("unresolved merge conflicts"), "stdout: {text:?}");
    r.dependency_cycles.push(tref(4, "u4", "loop"));
    r.self_deps = 2;
    assert_eq!(
        render_report(&r),
        "unresolved merge conflicts (1) — see `list --tag merge-conflict`:\n  id=3 uuid=u3 title=conflicted\n\
         self-dependencies (task_uuid = depends_on_uuid): 2\n\
         tasks participating in a dependency cycle (1):\n  id=4 uuid=u4 title=loop\n"
    );
}

#[test]
fn cfd_counts_each_task_at_most_once() {
    let rows = vec![
        row("2026-01-01T00:00:00Z", None, None, "pending"),
        row("2026-01-01T00:00:00Z", Some("2026-01-02T00:00:00Z"), None, "in-progress"),
        row("2026-01-01T00:00:00Z", Some("2026-01-02T00:00:00Z"), Some("2026-01-03T00:00:00Z"), "done"),
        row("2026-01-01T00:00:00Z", None, Some("2026-01-02T00:00:00Z"), "rejected"),
        row("2026-01-09T00:00:00Z", None, None, "pending"),
    ];
    for b in ["2025-12-31T23:59:59Z", "2026-01-01T23:59:59Z", "2026-01-02T23:59:59Z", "2026-01-05T23:59:59Z"] {
        let (a, p, d, x) = flow_counts(&rows, b);
        assert!(a + p + d + x <= rows.len() as i64);
    }
    assert_eq!(flow_counts(&rows, "2026-01-05T23:59:59Z"), (1, 1, 1, 1));
    assert_eq!(flow_counts(&rows, "2026-01-01T23:59:59Z"), (4, 0, 0, 0));
}

#[test]
fn doctor_lists_cycle_members_by_id_keeping_ties_in_order() {
    assert_eq!(order_by_id(&vec![3, 1, 3, 2]), vec![1, 3, 0, 2]);
    assert_eq!(order_by_id(&Vec::new()), Vec::<usize>::new());
}

#[test]
fn cfd_default_since_is_earliest_created_at() {
    let today = day("2026-09-15");
    let rows = vec![row("2026-08-01T00:00:00Z", None, None, "pending")];
    let since = cfd_since_day(None, Some("2026-08-01T00:00:00Z"), today).unwrap();
    let until = cfd_until_day(Some("2026-08-01"), today).unwrap();
    let buckets = cfd_buckets(&rows, since, until, 1).unwrap();
    assert_eq!(buckets.len(), 1);
    assert_eq!(buckets[0].date, "2026-08-01");
}

#[test]
fn cfd_bounds_default_to_today_and_read_since_first() {
    let today = day("2026-09-15");
    assert_eq!(cfd_since_day(None, None, today).unwrap(), today);
    assert_eq!(cfd_until_day(None, today).unwrap(), today);
    assert_eq!(cfd_since_day(Some("2026-08-03"), Some("2026-08-01T00:00:00Z"), today).unwrap(), day("2026-08-03"));
    assert_eq!(
        cfd_since_day(Some("soon"), None, today).unwrap_err().message(),
        "invalid date 'soon' (expected YYYY-MM-DD or RFC3339)"
    );
}
