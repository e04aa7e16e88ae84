use todo_sqlite::doctor::{doctor_verdict, DoctorReport};
use todo_sqlite::edit::check_renumber;
use todo_sqlite::completed::{completed_markdown, completed_query, group_by_date};
use todo_sqlite::listing::{build_list_query, choose_format, unblocked_only};
use todo_sqlite::resolve::{db_path_choice, marker_contents, marker_db_path, no_database_error};
use todo_sqlite::refs::{classify_task_ref, classify_with, not_a_ref_error, pick_by_display_id, pick_by_uuid, TaskBrief, TaskRefKind};
use todo_sqlite::schema::{migration_plan, require_matching_schema_versions};
use todo_sqlite::status::{status_rank, Status};
use todo_sqlite::task::Task;

fn s(x: &str) -> String {
    x.to_string()
}

#[test]
fn garbage_id_is_neither_a_number_nor_a_uuid() {
    assert!(classify_task_ref("not-an-id") == TaskRefKind::Neither);
    let e = not_a_ref_error("not-an-id");
    assert!(e.message().contains("not a task id or UUID"), "stderr: {:?}", e.message());
    assert_eq!(e.message(), "'not-an-id' is not a task id or UUID");
}

#[test]
fn well_formed_but_unknown_uuid_is_not_found_not_ambiguous() {
    let raw = "00000000-0000-4000-8000-000000000000";
    assert!(classify_task_ref(raw) == TaskRefKind::Uuid);
    let e = pick_by_uuid(raw, false).unwrap_err();
    assert!(e.message().contains("not found"));
    assert!(!e.message().contains("ambiguous"));
    assert!(pick_by_uuid(raw, true).is_ok());
}

#[test]
fn show_by_full_uuid_matches_show_by_id() {
    assert!(classify_task_ref("12") == TaskRefKind::DisplayId(12));
    assert!(classify_task_ref("{00000000-0000-4000-8000-000000000000}") == TaskRefKind::Uuid);
    assert!(classify_with("12", true) == TaskRefKind::DisplayId(12));
    assert!(classify_with("x", true) == TaskRefKind::Uuid);
    assert!(classify_with("x", false) == TaskRefKind::Neither);
}

fn brief(id: i64, uuid: &str, title: &str) -> TaskBrief {
    TaskBrief { id, uuid: s(uuid), status: s("pending"), title: s(title) }
}

#[test]
fn edit_add_dep_on_ambiguous_display_id_is_rejected() {
    let matches = vec![brief(1, "u1", "first"), brief(1, "u2", "second")];
    let e = pick_by_display_id("1", &matches).unwrap_err();
    assert!(e.message().contains("ambiguous"), "stderr: {:?}", e.message());
    assert_eq!(
        e.message(),
        "task id 1 is ambiguous (2 matches) — re-run with the full uuid shown below to pick one:\n\
         \x20 id=1 uuid=u1 status=pending title=first\n  id=1 uuid=u2 status=pending title=second\n"
    );
    assert_eq!(pick_by_display_id("1", &vec![brief(1, "u1", "first")]).unwrap(), 0);
    assert_eq!(pick_by_display_id("7", &Vec::new()).unwrap_err().message(), "task 7 not found");
}

#[test]
fn list_tag_filter_matches_only_tagged_tasks() {
    let (sql, params) = build_list_query("active", &vec![s("red")], None, None, None, "all").unwrap();
    assert!(sql.contains(" AND uuid IN (SELECT task_uuid FROM tags WHERE tag = ?1)"));
    assert_eq!(params, vec![s("red")]);
}

#[test]
fn list_orders_in_progress_first_then_priority() {
    let (sql, _) = build_list_query("active", &Vec::new(), None, None, None, "all").unwrap();
    assert!(sql.contains("ORDER BY CASE status WHEN 'in-progress' THEN 0 WHEN 'partial' THEN 1 WHEN 'pending' THEN 2"));
    assert!(sql.ends_with("priority ASC, created_at ASC, id ASC"));
}

#[test]
fn list_query_numbers_its_parameters() {
    let (sql, params) = build_list_query("done", &vec![s("a"), s("b")], None, Some("2026-08-01"), Some(5), "gate").unwrap();
    assert!(sql.contains("WHERE status = ?1 AND is_gate = 1 AND uuid IN (SELECT task_uuid FROM tags WHERE tag = ?2) AND uuid IN (SELECT task_uuid FROM tags WHERE tag = ?3) AND created_at >= ?4 ORDER BY"));
    assert!(sql.ends_with(" LIMIT 5"));
    assert_eq!(params, vec![s("done"), s("a"), s("b"), s("2026-08-01T00:00:00Z")]);
    assert_eq!(
        build_list_query("open", &Vec::new(), None, None, None, "all").unwrap_err().message(),
        "invalid --status 'open' (expected pending|partial|in-progress|done|rejected|active|all)"
    );
    assert_eq!(
        build_list_query("all", &Vec::new(), None, None, None, "chore").unwrap_err().message(),
        "invalid --kind 'chore' (expected gate|task|all)"
    );
    assert!(build_list_query("all", &Vec::new(), None, Some("soon"), None, "all").is_err());
}

#[test]
fn list_kind_gate_returns_only_gates() {
    let (sql, _) = build_list_query("all", &Vec::new(), None, None, None, "gate").unwrap();
    assert!(sql.contains("WHERE 1=1 AND is_gate = 1 ORDER BY"));
}

#[test]
fn list_kind_task_excludes_gates() {
    let (sql, _) = build_list_query("all", &Vec::new(), None, None, None, "task").unwrap();
    assert!(sql.contains("WHERE 1=1 AND is_gate = 0 ORDER BY"));
}

#[test]
fn list_since_filters_by_created_at() {
    let (sql, params) = build_list_query("active", &Vec::new(), None, Some("2026-08-01"), None, "all").unwrap();
    assert!(sql.contains("AND created_at >= ?1"));
    assert_eq!(params, vec![s("2026-08-01T00:00:00Z")]);
}

#[test]
fn format_choice_follows_format_then_json() {
    let allowed = vec![s("table"), s("json"), s("ndjson"), s("markdown")];
    assert_eq!(choose_format("table", false, &allowed).unwrap(), 0);
    assert_eq!(choose_format("table", true, &allowed).unwrap(), 1);
    assert_eq!(choose_format("ndjson", true, &allowed).unwrap(), 2);
    assert_eq!(
        choose_format("xml", false, &allowed).unwrap_err().message(),
        "invalid --format 'xml' (expected table|json|ndjson|markdown)"
    );
}

#[test]
fn export_completed_since_filter() {
    let (sql, params) = completed_query(Some("2026-08-01"), Some("2026-08-05")).unwrap();
    assert!(sql.contains("status = 'done' AND completed_at >= ?1 AND completed_at < ?2 ORDER BY completed_at DESC, id DESC"));
    assert_eq!(params, vec![s("2026-08-01T00:00:00Z"), s("2026-08-05T00:00:00Z")]);
    let (sql2, p2) = completed_query(None, Some("2026-08-05")).unwrap();
    assert!(sql2.contains("AND completed_at < ?1"));
    assert_eq!(p2.len(), 1);
}

fn done_task(id: i64, completed: Option<&str>) -> Task {
    Task {
        id,
        uuid: format!("u{id}"),
        title: format!("t{id}"),
        details: None,
        status: s("done"),
        priority: 3,
        is_gate: false,
        tags: Vec::new(),
        depends_on: Vec::new(),
        blocked: false,
        created_at: s("2026-01-01T00:00:00Z"),
        started_at: None,
        completed_at: completed.map(s),
        location: None,
        project_name: None,
        implementation_client: None,
        related: Vec::new(),
    }
}

#[test]
fn export_completed_groups_by_date() {
    let tasks = vec![
        done_task(3, Some("2026-08-02T10:00:00Z")),
        done_task(1, Some("2026-08-01T09:00:00Z")),
        done_task(2, Some("2026-08-02T08:00:00Z")),
    ];
    let groups = group_by_date(&tasks);
    assert_eq!(groups.len(), 2);
    assert_eq!(groups[0].date, "2026-08-02");
    assert_eq!(groups[0].members, vec![0, 2]);
    assert_eq!(groups[1].date, "2026-08-01");
    assert_eq!(groups[1].members, vec![1]);
    let total: usize = groups.iter().map(|g| g.members.len()).sum();
    assert_eq!(total, 3);
}

#[test]
fn refuses_to_merge_across_mismatched_schema_versions() {
    let e = require_matching_schema_versions(&[("ours", Some(5)), ("theirs", Some(6)), ("base", None)]).unwrap_err();
    assert!(e.message().contains("schema versions differ"), "stderr: {:?}", e.message());
    assert!(e.message().starts_with("refusing to merge: schema versions differ (ours=Some(5), theirs=Some(6), base=None) — migrating mid-merge"));
    assert!(e.message().ends_with("to migrate it to schema v6 first, then retry."));
    assert!(require_matching_schema_versions(&[("ours", Some(6)), ("theirs", None), ("base", Some(6))]).is_ok());
    assert!(require_matching_schema_versions(&[]).is_ok());
}

#[test]
fn v1_database_migrates_to_v2_on_open() {
    assert_eq!(migration_plan(1).unwrap(), vec![1, 2, 3, 4, 5]);
    assert_eq!(migration_plan(5).unwrap(), vec![5]);
    assert!(migration_plan(6).unwrap().is_empty());
    assert_eq!(
        migration_plan(7).unwrap_err().message(),
        "database schema version 7 is newer than this binary supports (6); upgrade todo-sqlite-cli"
    );
    let e = migration_plan(0).unwrap_err();
    assert_eq!(e.exit_code(), 2);
    assert_eq!(e.message(), "invalid schema_version 0");
}

#[test]
fn status_spellings_and_ranks() {
    assert_eq!(Status::InProgress.as_str(), "in-progress");
    assert!(Status::parse("rejected") == Some(Status::Rejected));
    assert!(Status::parse("Done") == None);
    assert_eq!(status_rank("pending"), 0);
    assert_eq!(status_rank("partial"), 1);
    assert_eq!(status_rank("done"), 2);
    assert_eq!(status_rank("weird"), 0);
}

#[test]
fn export_completed_markdown_is_a_dated_checklist() {
    let mut a = done_task(3, Some("2026-08-02T10:00:00Z"));
    a.title = s("ship it");
    let mut b = done_task(1, Some("2026-08-01T09:00:00Z"));
    b.title = s("write it");
    let tasks = vec![a, b];
    let groups = group_by_date(&tasks);
    assert_eq!(
        completed_markdown(&tasks, &groups),
        "## 2026-08-02\n\n- [x] 3 ship it\n\n## 2026-08-01\n\n- [x] 1 write it\n\n"
    );
    assert_eq!(completed_markdown(&Vec::new(), &Vec::new()), "");
}

fn list_ids(sql: &str, params: &[String], rows: &[(i64, &str, Option<&str>)]) -> Vec<i64> {
    let conn = rusqlite::Connection::open_in_memory().unwrap();
    conn.execute_batch(
        "CREATE TABLE tasks (uuid TEXT PRIMARY KEY, id INTEGER NOT NULL, title TEXT NOT NULL, details TEXT,
            status TEXT NOT NULL, priority INTEGER NOT NULL, is_gate INTEGER NOT NULL DEFAULT 0,
            created_at TEXT NOT NULL, started_at TEXT, completed_at TEXT, location TEXT, project_name TEXT,
            implementation_client TEXT);
         CREATE TABLE tags (task_uuid TEXT NOT NULL, tag TEXT NOT NULL);",
    )
    .unwrap();
    for (id, title, project) in rows {
        conn.execute(
            "INSERT INTO tasks(uuid, id, title, status, priority, created_at, project_name) VALUES(?1, ?2, ?3, 'pending', 3, '2026-01-01T00:00:00Z', ?4)",
            (format!("u{id}"), *id, *title, *project),
        )
        .unwrap();
    }
    let mut stmt = conn.prepare(sql).unwrap();
    let out = stmt
        .query_map(rusqlite::params_from_iter(params.iter()), |r| r.get::<_, i64>(0))
        .unwrap()
        .map(|r| r.unwrap())
        .collect();
    out
}

#[test]
fn list_filters_by_project_name() {
    let (sql, params) = build_list_query("active", &Vec::new(), Some("widgets"), None, None, "all").unwrap();
    assert!(sql.contains(" AND project_name = ?1 ORDER BY"));
    assert_eq!(params, vec![s("widgets")]);
    let ids = list_ids(&sql, &params, &[(1, "task a", Some("widgets")), (2, "task b", Some("gadgets")), (3, "task c", None)]);
    assert_eq!(ids, vec![1]);
    let (sql2, params2) = build_list_query("pending", &vec![s("red")], Some("widgets"), Some("2026-01-01"), None, "all").unwrap();
    assert!(sql2.contains("tag = ?2) AND project_name = ?3 AND created_at >= ?4 ORDER BY"));
    assert_eq!(params2, vec![s("pending"), s("red"), s("widgets"), s("2026-01-01T00:00:00Z")]);
}

#[test]
fn env_var_resolves_db() {
    assert_eq!(db_path_choice(&None, &Some(s("/tmp/sb/todo.db"))), Some(s("/tmp/sb/todo.db")));
}

#[test]
fn flag_beats_env_var() {
    assert_eq!(db_path_choice(&Some(s("/tmp/sb2/todo.db")), &Some(s("/tmp/sb1/todo.db"))), Some(s("/tmp/sb2/todo.db")));
}

#[test]
fn missing_everything_errors_with_hint() {
    assert_eq!(db_path_choice(&None, &None), None);
    let e = no_database_error();
    assert_eq!(e.exit_code(), 1);
    assert!(e.message().contains("init"));
}

/// Runs a task query against an in-memory database holding the given
/// `(id, title, status, tags)` tasks and returns the ids it yields.
fn query_ids(sql: &str, params: &[String], rows: &[(i64, &str, &str, &[&str])]) -> Vec<i64> {
    let conn = rusqlite::Connection::open_in_memory().unwrap();
    conn.execute_batch(
        "CREATE TABLE tasks (uuid TEXT PRIMARY KEY, id INTEGER NOT NULL, title TEXT NOT NULL, details TEXT,
            status TEXT NOT NULL, priority INTEGER NOT NULL, is_gate INTEGER NOT NULL DEFAULT 0,
            created_at TEXT NOT NULL, started_at TEXT, completed_at TEXT, location TEXT, project_name TEXT,
            implementation_client TEXT);
         CREATE TABLE tags (task_uuid TEXT NOT NULL, tag TEXT NOT NULL);",
    )
    .unwrap();
    for (id, title, status, tags) in rows {
        let uuid = format!("u{id}");
        conn.execute(
            "INSERT INTO tasks(uuid, id, title, status, priority, created_at) VALUES(?1, ?2, ?3, ?4, 3, '2026-01-01T00:00:00Z')",
            (uuid.clone(), *id, *title, *status),
        )
        .unwrap();
        for tag in tags.iter() {
            conn.execute("INSERT INTO tags(task_uuid, tag) VALUES(?1, ?2)", (uuid.clone(), *tag)).unwrap();
        }
    }
    let mut stmt = conn.prepare(sql).unwrap();
    let out = stmt
        .query_map(rusqlite::params_from_iter(params.iter()), |r| r.get::<_, i64>(0))
        .unwrap()
        .map(|r| r.unwrap())
        .collect();
    out
}

#[test]
fn aging_excludes_done_and_rejected() {
    // `aging` reports the open tasks: the `active` list query.
    let (sql, params) = build_list_query("active", &Vec::new(), None, None, None, "all").unwrap();
    let ids = query_ids(&sql, &params, &[(1, "open one", "pending", &[]), (2, "done one", "done", &[]), (3, "rejected one", "rejected", &[])]);
    assert_eq!(ids, vec![1]);
}

#[test]
fn aging_tag_filter() {
    let (sql, params) = build_list_query("active", &vec![s("foo")], None, None, None, "all").unwrap();
    let ids = query_ids(&sql, &params, &[(1, "tagged", "pending", &["foo"]), (2, "untagged", "pending", &[])]);
    assert_eq!(ids, vec![1]);
}

#[test]
fn renumber_by_uuid_resolves_a_duplicate_display_id() {
    let a = "00000000-0000-4000-8000-00000000000a";
    let b = "00000000-0000-4000-8000-00000000000b";
    let e = pick_by_display_id("1", &vec![brief(1, a, "first"), brief(1, b, "second")]).unwrap_err();
    assert!(e.message().contains("ambiguous"));
    assert!(classify_task_ref(b) == TaskRefKind::Uuid);
    assert!(pick_by_uuid(b, true).is_ok());
    assert!(check_renumber(1, 99, false, &None).is_ok());
    assert!(doctor_verdict(&DoctorReport::new()).is_ok());
}

#[test]
fn uuid_references_take_every_form_the_uuid_crate_reads() {
    for raw in [
        "67e55044-10b1-426f-9247-bb680e5fe0c8",
        "67e5504410b1426f9247bb680e5fe0c8",
        "F9168C5E-CEB2-4faa-B6BF-329BF39FA1E4",
        "{6d93bade-bd9f-4e13-8914-9474e1e3567b}",
        "urn:uuid:67e55044-10b1-426f-9247-bb680e5fe0c8",
        "Urn:UUID:67e55044-10b1-426f-9247-bb680e5fe0c8",
    ] {
        assert!(classify_task_ref(raw) == TaskRefKind::Uuid, "{raw}");
    }
    for raw in [
        "67e55044-10b1-426f-9247-bb680e5fe0c",
        "67e55044x10b1-426f-9247-bb680e5fe0c8",
        "{67e55044-10b1-426f-9247-bb680e5fe0c8",
        "urn:uuix:67e55044-10b1-426f-9247-bb680e5fe0c8",
        "g7e5504410b1426f9247bb680e5fe0c8",
    ] {
        assert!(classify_task_ref(raw) == TaskRefKind::Neither, "{raw}");
    }
    assert!(classify_task_ref("12") == TaskRefKind::DisplayId(12));
}

#[test]
fn list_unblocked_keeps_only_tasks_without_open_dependencies() {
    let mut a = done_task(1, None);
    a.blocked = true;
    let b = done_task(2, None);
    let mut c = done_task(3, None);
    c.blocked = true;
    let d = done_task(4, None);
    let ids: Vec<i64> = unblocked_only(vec![a, b, c, d]).iter().map(|t| t.id).collect();
    assert_eq!(ids, vec![2, 4]);
}

#[test]
fn a_written_marker_reads_back_as_its_database_path() {
    let text = marker_contents("/work/repo/todo-sqlite-cli.db");
    assert_eq!(text, "/work/repo/todo-sqlite-cli.db\n");
    assert_eq!(marker_db_path(&text), Some(s("/work/repo/todo-sqlite-cli.db")));
}
