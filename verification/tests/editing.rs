use todo_sqlite::cli::parse_priority;
use todo_sqlite::deps::{check_dep_adds, find_cycle_participants, would_create_cycle};
use todo_sqlite::edit::{
    apply_details, apply_location, apply_optional_field, check_new_id, check_renumber, check_title,
    collect_targets, dedup, new_task_keys, next_display_id, task_keys_with, LinkKind,
};
use todo_sqlite::error::CliError;
use todo_sqlite::link_rows::{link_writes, related_writes, RowWrite};
use todo_sqlite::schema::{uuid_migration, uuid_migration_with};
use todo_sqlite::strgraph::Link;

fn s(x: &str) -> String {
    x.to_string()
}

fn link(a: &str, b: &str) -> Link {
    Link { from: s(a), to: s(b) }
}

#[test]
fn priority_accepts_p_prefix() {
    assert_eq!(parse_priority("P2"), Ok(2));
}

#[test]
fn priority_accepts_lowercase_p_prefix() {
    assert_eq!(parse_priority("p4"), Ok(4));
}

#[test]
fn priority_rejects_out_of_range() {
    assert_eq!(parse_priority("P9"), Err(s("priority must be between 1 and 5 (got 9)")));
}

#[test]
fn priority_plain_digits_whitespace_and_garbage() {
    assert_eq!(parse_priority(" 3 "), Ok(3));
    assert_eq!(parse_priority("0"), Err(s("priority must be between 1 and 5 (got 0)")));
    assert_eq!(parse_priority("high"), Err(s("invalid priority 'high' (expected 1-5 or P1-P5)")));
    assert_eq!(parse_priority("PP1"), Err(s("invalid priority 'PP1' (expected 1-5 or P1-P5)")));
    assert_eq!(parse_priority(""), Err(s("invalid priority '' (expected 1-5 or P1-P5)")));
}

#[test]
fn add_rejects_empty_title() {
    let e = check_title("").unwrap_err();
    assert_eq!(e.exit_code(), 1);
    assert_eq!(e.message(), "title must not be empty");
    assert!(check_title("  \t ").is_err());
    assert!(check_title(" x ").is_ok());
}

#[test]
fn add_title_may_start_with_double_dash() {
    assert!(check_title("--detect-relevance: markers match inside comments").is_ok());
}

#[test]
fn edit_append_details_seeds_when_empty() {
    assert_eq!(apply_details(&None, &None, &Some(s("first note")), false).unwrap(), Some(s("first note")));
    assert_eq!(apply_details(&Some(s("")), &None, &Some(s("first note")), false).unwrap(), Some(s("first note")));
}

#[test]
fn edit_append_details_concatenates_with_newline() {
    let once = apply_details(&Some(s("base")), &None, &Some(s("more")), false).unwrap();
    let twice = apply_details(&once, &None, &Some(s("and more")), false).unwrap();
    assert_eq!(twice, Some(s("base\nmore\nand more")));
}

#[test]
fn edit_append_details_rejected_with_replace_or_clear() {
    let msg = "--details, --append-details, and --clear-details are mutually exclusive";
    let e = apply_details(&None, &Some(s("x")), &Some(s("y")), false).unwrap_err();
    assert_eq!(e.message(), msg);
    let e = apply_details(&None, &None, &Some(s("y")), true).unwrap_err();
    assert_eq!(e.message(), msg);
}

#[test]
fn edit_append_details_rejects_empty_text_and_other_edits() {
    let e = apply_details(&Some(s("a")), &None, &Some(s("")), false).unwrap_err();
    assert_eq!(e.message(), "--append-details text must not be empty");
    assert_eq!(apply_details(&Some(s("a")), &Some(s("b")), &None, false).unwrap(), Some(s("b")));
    assert_eq!(apply_details(&Some(s("a")), &None, &None, true).unwrap(), None);
    assert_eq!(apply_details(&Some(s("a")), &None, &None, false).unwrap(), Some(s("a")));
}

#[test]
fn edit_location_and_clear_location() {
    assert_eq!(apply_location(&None, &Some(s("site-9")), false).unwrap(), Some(s("site-9")));
    assert_eq!(apply_location(&Some(s("site-9")), &None, true).unwrap(), None);
    assert_eq!(apply_location(&Some(s("site-9")), &None, false).unwrap(), Some(s("site-9")));
}

#[test]
fn edit_location_and_clear_location_together_rejected() {
    let e = apply_location(&None, &Some(s("site-9")), true).unwrap_err();
    assert_eq!(e.message(), "--location and --clear-location are mutually exclusive");
}

#[test]
fn edit_project_name_and_clear_project_name_together_rejected() {
    let e = apply_optional_field("project-name", &None, &Some(s("gadgets")), true).unwrap_err();
    assert_eq!(e.message(), "--project-name and --clear-project-name are mutually exclusive");
}

#[test]
fn edit_implementation_client_and_clear_implementation_client_together_rejected() {
    let e = apply_optional_field("implementation-client", &None, &Some(s("worker-2")), true).unwrap_err();
    assert_eq!(e.message(), "--implementation-client and --clear-implementation-client are mutually exclusive");
}

#[test]
fn edit_project_name_and_clear_project_name() {
    let v = apply_optional_field("project-name", &Some(s("widgets")), &Some(s("gadgets")), false).unwrap();
    assert_eq!(v, Some(s("gadgets")));
    assert_eq!(apply_optional_field("project-name", &v, &None, true).unwrap(), None);
}

#[test]
fn edit_add_related_rejects_self_link() {
    let me = Some(s("u-a"));
    let r = collect_targets(LinkKind::Related, &me, &vec![s("1")], &vec![Ok(s("u-a"))]);
    let e = r.unwrap_err();
    assert!(e.message().contains("related to itself"));
    assert_eq!(e.message(), "a task cannot be related to itself");
}

#[test]
fn link_targets_keep_order_and_report_the_first_failure() {
    let me = Some(s("u-a"));
    let ok = collect_targets(LinkKind::Dependency, &me, &vec![s("2"), s("3")], &vec![Ok(s("u-b")), Ok(s("u-c"))]);
    assert_eq!(ok.unwrap(), vec![s("u-b"), s("u-c")]);
    let bad = collect_targets(
        LinkKind::Dependency,
        &me,
        &vec![s("9"), s("1")],
        &vec![Err(CliError::User(s("task 9 not found"))), Ok(s("u-a"))],
    );
    assert_eq!(bad.unwrap_err().message(), "dependency 9: task 9 not found");
    let selfdep = collect_targets(LinkKind::Dependency, &me, &vec![s("1")], &vec![Ok(s("u-a"))]);
    assert_eq!(selfdep.unwrap_err().message(), "a task cannot depend on itself");
    let nobody = collect_targets(LinkKind::Dependency, &None, &vec![s("1")], &vec![Ok(s("u-a"))]);
    assert_eq!(nobody.unwrap(), vec![s("u-a")]);
}

#[test]
fn edit_dependency_cycle_rejected() {
    // b depends on a; adding a -> b closes a cycle
    let deps = vec![link("u-b", "u-a")];
    assert!(would_create_cycle(&deps, &s("u-a"), &s("u-b")));
    let e = check_dep_adds(&deps, &s("u-a"), &vec![s("u-b")]).unwrap_err();
    assert!(e.message().contains("cycle"));
    assert_eq!(e.message(), "adding this dependency would create a cycle");
}

#[test]
fn dependency_adds_are_checked_in_order() {
    let deps: Vec<Link> = Vec::new();
    assert!(check_dep_adds(&deps, &s("u-a"), &vec![s("u-b"), s("u-c")]).is_ok());
    // c -> b -> a: a may not gain an edge to c, even after an unrelated one
    let deps2 = vec![link("u-c", "u-b"), link("u-b", "u-a")];
    assert!(check_dep_adds(&deps2, &s("u-d"), &vec![s("u-c")]).is_ok());
    assert!(check_dep_adds(&deps2, &s("u-a"), &vec![s("u-d"), s("u-c")]).is_err());
    assert!(would_create_cycle(&deps2, &s("u-a"), &s("u-c")));
    assert!(!would_create_cycle(&deps2, &s("u-c"), &s("u-x")));
}

#[test]
fn cycle_participants_are_exactly_the_tasks_on_a_cycle() {
    // a <-> b, a -> c -> b (c on the cycle a -> c -> b -> a), d -> a (not on one)
    let deps = vec![link("a", "b"), link("b", "a"), link("a", "c"), link("c", "b"), link("d", "a")];
    let mut p = find_cycle_participants(&deps);
    p.sort();
    assert_eq!(p, vec![s("a"), s("b"), s("c")]);
    assert!(find_cycle_participants(&vec![link("x", "y")]).is_empty());
    assert_eq!(find_cycle_participants(&vec![link("x", "x")]), vec![s("x")]);
}

#[test]
fn dedup_keeps_first_occurrences_in_order() {
    assert_eq!(dedup(&vec![s("b"), s("a"), s("b"), s("c"), s("a")]), vec![s("b"), s("a"), s("c")]);
    assert!(dedup(&Vec::new()).is_empty());
}

#[test]
fn id_never_reused_after_rm() {
    // ids 1, 2, 3 were handed out and 2 was removed: the next is 4
    assert_eq!(next_display_id(&vec![1, 3]), Some(4));
    assert_eq!(next_display_id(&Vec::new()), Some(1));
    assert_eq!(next_display_id(&vec![i64::MAX]), None);
    // COALESCE(MAX(id), 0) + 1 also for ids at or below zero
    assert_eq!(next_display_id(&vec![-5, 0]), Some(1));
    assert_eq!(next_display_id(&vec![-5, -9]), Some(-4));
}

#[test]
fn new_task_keys_give_next_id_and_a_hyphenated_uuid() {
    let none: Vec<String> = Vec::new();
    let (id, u) = new_task_keys(&vec![1, 3], &none).unwrap();
    assert_eq!(id, 4);
    assert_eq!(u.len(), 36);
    assert_eq!(&u[8..9], "-");
    assert!(u.chars().all(|c| c == '-' || c.is_ascii_digit() || ('a'..='f').contains(&c)));
    let (_, u2) = new_task_keys(&vec![1, 3], &vec![u.clone()]).unwrap();
    assert_ne!(u2, u);
    assert_eq!(
        new_task_keys(&vec![i64::MAX], &none).unwrap_err().message(),
        "next id query failed: Invalid column type Real at index: 0, name: COALESCE(MAX(id), 0) + 1"
    );
    assert_eq!(new_task_keys(&vec![i64::MAX], &none).unwrap_err().exit_code(), 2);
}

#[test]
fn uuid_migration_repoints_rows_to_fresh_uuids() {
    let ids = vec![1, 2];
    let (us, tags, deps) = uuid_migration(&ids, &vec![(2, s("red"))], &vec![(2, 1)]).unwrap();
    assert_eq!(us.len(), 2);
    assert_ne!(us[0], us[1]);
    assert_eq!(tags, vec![(us[1].clone(), s("red"))]);
    assert_eq!(deps.len(), 1);
    assert_eq!((deps[0].from.clone(), deps[0].to.clone()), (us[1].clone(), us[0].clone()));
    let e = uuid_migration(&ids, &vec![(9, s("x"))], &vec![(3, 1)]).unwrap_err();
    assert_eq!(e.message(), "tag references unknown task id 9");
    let e = uuid_migration(&ids, &Vec::new(), &vec![(1, 7)]).unwrap_err();
    assert_eq!(e.message(), "dep references unknown task id 7");
}

#[test]
fn renumber_rejects_non_positive_new_id() {
    let e = check_new_id(0).unwrap_err();
    assert!(e.message().contains("positive integer"));
    assert_eq!(e.message(), "new id must be a positive integer (got 0)");
    assert!(check_new_id(42).is_ok());
}

#[test]
fn renumber_to_same_id_is_rejected() {
    let e = check_renumber(5, 5, false, &None).unwrap_err();
    assert!(e.message().contains("already has id"));
    assert_eq!(e.message(), "task 5 already has id 5");
}

#[test]
fn renumber_onto_id_already_in_use_is_rejected_without_force() {
    let holder = Some(s("u-other"));
    let e = check_renumber(2, 1, false, &holder).unwrap_err();
    assert!(e.message().contains("already in use"));
    assert_eq!(e.message(), "id 1 is already in use by task u-other — pass --force to leave both sharing it");
    assert!(check_renumber(2, 1, true, &holder).is_ok());
    assert!(check_renumber(2, 1, false, &None).is_ok());
}

fn write_parts(ws: &[RowWrite]) -> Vec<(bool, String, String)> {
    ws.iter()
        .map(|w| match w {
            RowWrite::Insert(l) => (true, l.from.clone(), l.to.clone()),
            RowWrite::Delete(l) => (false, l.from.clone(), l.to.clone()),
        })
        .collect()
}

fn owned(v: &[&str]) -> Vec<String> {
    v.iter().map(|s| s.to_string()).collect()
}

#[test]
fn link_writes_insert_then_delete_rows_of_the_task() {
    let ws = link_writes("u1", &owned(&["x", "y"]), &owned(&["x"]));
    assert_eq!(
        write_parts(&ws),
        vec![
            (true, "u1".to_string(), "x".to_string()),
            (true, "u1".to_string(), "y".to_string()),
            (false, "u1".to_string(), "x".to_string()),
        ]
    );
}

#[test]
fn related_writes_go_both_ways() {
    let ws = related_writes("a", &owned(&["b"]), &owned(&["c"]));
    assert_eq!(
        write_parts(&ws),
        vec![
            (true, "a".to_string(), "b".to_string()),
            (true, "b".to_string(), "a".to_string()),
            (false, "a".to_string(), "c".to_string()),
            (false, "c".to_string(), "a".to_string()),
        ]
    );
}

#[test]
fn related_writes_keep_a_mutual_table_mutual() {
    let mut table: std::collections::BTreeSet<(String, String)> = std::collections::BTreeSet::new();
    for (x, y) in [("a", "c"), ("c", "a"), ("b", "d"), ("d", "b")] {
        table.insert((x.to_string(), y.to_string()));
    }
    for (ins, x, y) in write_parts(&related_writes("a", &owned(&["b"]), &owned(&["c"]))) {
        if ins {
            table.insert((x, y));
        } else {
            table.remove(&(x, y));
        }
    }
    for (x, y) in &table {
        assert!(table.contains(&(y.clone(), x.clone())));
    }
    assert!(table.contains(&("a".to_string(), "b".to_string())));
    assert!(!table.contains(&("c".to_string(), "a".to_string())));
    assert_eq!(table.len(), 4);
}

#[test]
fn add_after_migration_continues_from_max_existing_id() {
    // t1..t3 existed, t3 (the highest) was deleted: the next id is 3 again.
    assert_eq!(next_display_id(&vec![1, 2]), Some(3));
}

#[test]
fn renumber_reassigns_display_id() {
    assert!(check_new_id(42).is_ok());
    assert!(check_renumber(1, 42, false, &None).is_ok());
}

#[test]
fn v4_database_migrates_to_v5_on_open() {
    // two tasks, a tag on the blocker, a dep edge 2 -> 1
    let ids = vec![1, 2];
    let (uuids, tags, deps) = uuid_migration(&ids, &vec![(1, s("infra"))], &vec![(2, 1)]).unwrap();
    assert_eq!(uuids.len(), 2);
    assert_eq!(uuids[0].len(), 36, "uuid should be a canonical 36-char string");
    assert_ne!(uuids[0], uuids[1], "each task must get a distinct uuid");
    assert_eq!(tags, vec![(uuids[0].clone(), s("infra"))], "tag must be repointed at the blocker's uuid");
    assert_eq!((deps[0].from.clone(), deps[0].to.clone()), (uuids[1].clone(), uuids[0].clone()));
}

#[test]
fn uuid_migration_gives_each_task_its_own_uuid() {
    let ids: Vec<i64> = (1..=50).collect();
    let (us, _, _) = uuid_migration(&ids, &Vec::new(), &Vec::new()).unwrap();
    let distinct: std::collections::BTreeSet<&String> = us.iter().collect();
    assert_eq!(distinct.len(), 50);
}

#[test]
fn task_keys_with_a_drawn_uuid() {
    let taken = vec![s("u-1")];
    assert_eq!(task_keys_with(&vec![1, 3], &taken, s("u-2")).unwrap(), (4, s("u-2")));
    assert_eq!(
        task_keys_with(&vec![1, 3], &taken, s("u-1")).unwrap_err().message(),
        "insert failed: UNIQUE constraint failed: tasks.uuid"
    );
    assert_eq!(
        task_keys_with(&vec![i64::MAX], &taken, s("u-1")).unwrap_err().message(),
        "next id query failed: Invalid column type Real at index: 0, name: COALESCE(MAX(id), 0) + 1"
    );
}

#[test]
fn uuid_migration_with_drawn_uuids() {
    let ids = vec![1, 2];
    let (us, tags, deps) = uuid_migration_with(&ids, &vec![(2, s("red"))], &vec![(2, 1)], vec![s("a"), s("b")]).unwrap();
    assert_eq!(us, vec![s("a"), s("b")]);
    assert_eq!(tags, vec![(s("b"), s("red"))]);
    assert_eq!((deps[0].from.clone(), deps[0].to.clone()), (s("b"), s("a")));
    assert_eq!(
        uuid_migration_with(&ids, &vec![(9, s("x"))], &Vec::new(), vec![s("a"), s("a")]).unwrap_err().message(),
        "tasks_new insert failed: UNIQUE constraint failed: tasks_new.uuid"
    );
    assert_eq!(
        uuid_migration_with(&ids, &vec![(9, s("x"))], &vec![(1, 7)], vec![s("a"), s("b")]).unwrap_err().message(),
        "tag references unknown task id 9"
    );
    assert_eq!(
        uuid_migration_with(&ids, &Vec::new(), &vec![(1, 7)], vec![s("a"), s("b")]).unwrap_err().message(),
        "dep references unknown task id 7"
    );
    assert!(uuid_migration(&vec![5], &vec![(5, s("t"))], &Vec::new()).is_ok());
}
