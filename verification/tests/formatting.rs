use todo_sqlite::format::{markdown_todo, table_line, task_text};
use todo_sqlite::edit::apply_optional_field;
use todo_sqlite::link_rows::{related_writes, RowWrite};
use todo_sqlite::task::Task;

fn task(id: i64, title: &str) -> Task {
    Task {
        id,
        uuid: format!("00000000-0000-4000-8000-{:012}", id),
        title: title.to_string(),
        details: None,
        status: "pending".to_string(),
        priority: 3,
        is_gate: false,
        tags: Vec::new(),
        depends_on: Vec::new(),
        blocked: false,
        created_at: "2026-01-02T03:04:05Z".to_string(),
        started_at: None,
        completed_at: None,
        location: None,
        project_name: None,
        implementation_client: None,
        related: Vec::new(),
    }
}

#[test]
fn add_prints_id_and_stores_task() {
    let t = task(1, "alpha");
    let s = task_text(&t, false);
    assert!(s.contains("Title: alpha"));
    assert_eq!(task(2, "beta").id, 2);
}

#[test]
fn show_default_suppresses_default_status_and_priority() {
    let t = task(1, "a");
    let s = task_text(&t, false);
    assert!(!s.contains("Status: pending"), "got:\n{s}");
    assert!(!s.contains("Priority: P3"), "got:\n{s}");
    assert!(s.contains("Title: a"), "got:\n{s}");
    assert!(!s.contains("# Title:"), "got:\n{s}");
}

#[test]
fn show_verbose_includes_default_status_and_priority() {
    let t = task(1, "a");
    let s = task_text(&t, true);
    assert!(s.contains("Status: pending"));
    assert!(s.contains("Priority: P3"));
    assert!(s.contains("Created:"));
}

#[test]
fn show_text_exact_terse_page() {
    let mut t = task(7, "fix filter");
    t.status = "in-progress".to_string();
    t.priority = 1;
    t.depends_on = vec![3, 4];
    t.blocked = true;
    t.tags = vec!["infra".to_string(), "urgent".to_string()];
    t.related = vec![9];
    t.location = Some("warehouse-3".to_string());
    t.started_at = Some("2026-01-03T00:00:00Z".to_string());
    t.details = Some("line one".to_string());
    assert_eq!(
        task_text(&t, false),
        "Task ID: 7\nTitle: fix filter\nStatus: in-progress\nPriority: P1\n\
         Dependencies: 3, 4 (blocked)\nTags: infra, urgent\nRelated: 9\nLocation: warehouse-3\n\
         Started: 2026-01-03T00:00:00Z\nDetails:\nline one\n"
    );
}

#[test]
fn add_location_and_related_show_up_on_show() {
    let mut b = task(2, "task b");
    b.location = Some("node-7".to_string());
    b.related = vec![1];
    let s = task_text(&b, false);
    assert!(s.contains("Location: node-7"));
    assert!(s.contains("Related: 1"));
    let mut a = task(1, "task a");
    a.related = vec![2];
    assert!(task_text(&a, false).contains("Related: 2"));
}

#[test]
fn add_project_name_shows_up_on_show() {
    let mut a = task(1, "task a");
    a.project_name = Some("widgets".to_string());
    assert!(task_text(&a, false).contains("Project: widgets"));
}

#[test]
fn add_implementation_client_shows_up_on_show() {
    let mut a = task(1, "task a");
    a.implementation_client = Some("worker-1".to_string());
    assert!(task_text(&a, false).contains("Client: worker-1"));
}

#[test]
fn implementation_client_does_not_appear_in_list_table() {
    let mut a = task(1, "task a");
    a.implementation_client = Some("worker-1".to_string());
    assert!(!table_line(&a).contains("worker-1"));
}

#[test]
fn list_table_prefixes_gate_title() {
    let mut g = task(1, "condition met check");
    g.is_gate = true;
    assert!(table_line(&g).contains("[GATE] condition met check"));
}

#[test]
fn location_shows_as_at_suffix_in_list() {
    let mut a = task(1, "fix filter");
    a.location = Some("warehouse-3".to_string());
    let b = task(2, "plain task");
    assert!(table_line(&a).contains("fix filter @warehouse-3"));
    let lb = table_line(&b);
    assert!(lb.contains("plain task"));
    assert!(!lb.contains("plain task @"));
}

#[test]
fn project_name_shows_up_as_plus_suffix_in_list_table() {
    let mut a = task(1, "task a");
    a.project_name = Some("widgets".to_string());
    assert!(table_line(&a).contains("task a +widgets"));
}

#[test]
fn table_line_pads_id_and_status() {
    let mut t = task(1, "replace intake filter");
    t.location = Some("warehouse-3".to_string());
    assert_eq!(table_line(&t), "   1  pending      P3  replace intake filter @warehouse-3\n");
    let mut u = task(12345, "x");
    u.status = "in-progress".to_string();
    u.tags = vec!["a".to_string(), "b".to_string()];
    u.blocked = true;
    assert_eq!(table_line(&u), "12345  in-progress  P3  x [a,b] [blocked]\n");
}

#[test]
fn export_todo_terse_markdown_drops_dependencies_none_line() {
    let s = markdown_todo(&vec![task(1, "a")], false);
    assert!(!s.contains("Dependencies: none"), "got:\n{s}");
}

#[test]
fn export_todo_verbose_markdown_keeps_dependencies_none_line() {
    let s = markdown_todo(&vec![task(1, "a")], true);
    assert!(s.contains("# Dependencies: none"), "got:\n{s}");
}

#[test]
fn markdown_exact_verbose_and_terse() {
    let mut t = task(2, "b");
    t.details = Some("note\n".to_string());
    assert_eq!(
        markdown_todo(&vec![t], true),
        "# TODO\n\n# Task ID: 2\n# Title: b\n# Status: pending\n# Priority: P3\n# Dependencies: none\n# Details:\nnote\n\n---\n\n"
    );
    let u = task(3, "c");
    assert_eq!(
        markdown_todo(&vec![u], false),
        "# TODO\n\nTask ID: 3\nTitle: c\nStatus: pending\nPriority: P3\n\n---\n\n"
    );
    assert_eq!(markdown_todo(&Vec::new(), false), "# TODO\n\n");
}

#[test]
fn related_does_not_appear_in_list_output() {
    let mut b = task(2, "task b");
    b.related = vec![1];
    let line = table_line(&b);
    assert!(!line.contains("Related"), "line: {line:?}");
    assert!(line.contains("task b"));
}

/// The display ids `show` lists as related to the task with uuid `me`.
fn related_ids(table: &std::collections::BTreeSet<(String, String)>, me: &str, ids: &[(&str, i64)]) -> Vec<i64> {
    let mut out: Vec<i64> = table
        .iter()
        .filter(|(from, _)| from == me)
        .map(|(_, to)| ids.iter().find(|(u, _)| u == to).unwrap().1)
        .collect();
    out.sort();
    out
}

fn apply(table: &mut std::collections::BTreeSet<(String, String)>, ws: &[RowWrite]) {
    for w in ws {
        match w {
            RowWrite::Insert(l) => {
                table.insert((l.from.clone(), l.to.clone()));
            }
            RowWrite::Delete(l) => {
                table.remove(&(l.from.clone(), l.to.clone()));
            }
        }
    }
}

#[test]
fn edit_add_related_and_rm_related_are_mutual() {
    let ids = [("ua", 1), ("ub", 2)];
    let mut table = std::collections::BTreeSet::new();
    let none: Vec<String> = Vec::new();
    apply(&mut table, &related_writes("ua", &vec!["ub".to_string()], &none));
    let mut b = task(2, "task b");
    b.related = related_ids(&table, "ub", &ids);
    assert!(task_text(&b, false).contains("Related: 1"));

    apply(&mut table, &related_writes("ua", &none, &vec!["ub".to_string()]));
    let mut a = task(1, "task a");
    a.related = related_ids(&table, "ua", &ids);
    b.related = related_ids(&table, "ub", &ids);
    assert!(!task_text(&a, false).contains("Related:"));
    assert!(!task_text(&b, false).contains("Related:"));
}

#[test]
fn edit_implementation_client_and_clear_implementation_client() {
    let mut a = task(1, "task a");
    a.implementation_client = apply_optional_field("implementation-client", &a.implementation_client, &Some("worker-2".to_string()), false).unwrap();
    assert!(task_text(&a, false).contains("Client: worker-2"));
    a.implementation_client = apply_optional_field("implementation-client", &a.implementation_client, &None, true).unwrap();
    assert!(!task_text(&a, false).contains("Client:"));
}
