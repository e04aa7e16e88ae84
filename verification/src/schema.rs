//! Schema versions: which migrations an older database needs, and the
//! refusal to merge databases whose on-disk versions differ.
use vstd::prelude::*;
use crate::error::{CliError, is_system_error, is_user_error};
use crate::strgraph::Link;
use crate::edit::{hyphenated_uuid, new_uuid, uuid_taken_msg};
use crate::strs::seq_view;
use crate::text::{int_to_dec, push_str, i64_to_string, str_eq};

verus! {

/// The schema version this library writes.
pub const SCHEMA_VERSION: i64 = 6;

/// `database schema version <v> is newer than this binary supports (6); upgrade todo-sqlite-cli`.
pub open spec fn too_new_msg(v: int) -> Seq<char> {
    "database schema version "@ + int_to_dec(v) + " is newer than this binary supports ("@
        + int_to_dec(SCHEMA_VERSION as int) + "); upgrade todo-sqlite-cli"@
}

/// `invalid schema_version <v>`.
pub open spec fn invalid_version_msg(v: int) -> Seq<char> {
    "invalid schema_version "@ + int_to_dec(v)
}

/// The migrations a database at version `current` goes through, each named
/// by the version it starts from: `current`, `current + 1`, ..., 5.
pub fn migration_plan(current: i64) -> (r: Result<Vec<i64>, CliError>)
    ensures
        current > SCHEMA_VERSION ==> (r matches Err(e) && is_system_error(e, too_new_msg(current as int))),
        current < 1 ==> (r matches Err(e) && is_system_error(e, invalid_version_msg(current as int))),
        1 <= current <= SCHEMA_VERSION ==> (r matches Ok(steps)
            && steps@.len() == SCHEMA_VERSION - current
            && forall|k: int| 0 <= k < steps@.len() ==> #[trigger] steps@[k] == current + k),
{
    if current > SCHEMA_VERSION {
        let mut m = "database schema version ".to_string();
        let c = i64_to_string(current);
        push_str(&mut m, c.as_str());
        push_str(&mut m, " is newer than this binary supports (");
        let s = i64_to_string(SCHEMA_VERSION);
        push_str(&mut m, s.as_str());
        push_str(&mut m, "); upgrade todo-sqlite-cli");
        return Err(CliError::System(m));
    }
    if current < 1 {
        let mut m = "invalid schema_version ".to_string();
        let c = i64_to_string(current);
        push_str(&mut m, c.as_str());
        return Err(CliError::System(m));
    }
    let mut steps: Vec<i64> = Vec::new();
    let mut v = current;
    while v < SCHEMA_VERSION
        invariant
            1 <= current <= v <= SCHEMA_VERSION,
            steps@.len() == v - current,
            forall|k: int| 0 <= k < steps@.len() ==> #[trigger] steps@[k] == current + k,
        decreases SCHEMA_VERSION - v,
    {
        steps.push(v);
        v = v + 1;
    }
    Ok(steps)
}

/// `{v:?}` of an `Option<i64>`: `Some(<v>)` or `None`.
pub open spec fn opt_debug(v: Option<i64>) -> Seq<char> {
    match v {
        Some(n) => "Some("@ + int_to_dec(n as int) + ")"@,
        None => "None"@,
    }
}

/// `name=<version>` for each database, joined by `, `.
pub open spec fn versions_detail(l: Seq<(&str, Option<i64>)>) -> Seq<char>
    decreases l.len(),
{
    if l.len() == 0 {
        Seq::empty()
    } else if l.len() == 1 {
        l[0].0@ + "="@ + opt_debug(l[0].1)
    } else {
        versions_detail(l.drop_last()) + ", "@ + l.last().0@ + "="@ + opt_debug(l.last().1)
    }
}

/// The refusal to merge databases whose versions differ.
pub open spec fn versions_differ_msg(l: Seq<(&str, Option<i64>)>) -> Seq<char> {
    "refusing to merge: schema versions differ ("@ + versions_detail(l)
        + ") — migrating mid-merge would mint fresh, uncorrelated uuids for whichever side is behind and duplicate every pre-existing task (see CORRUPTION_LOG.md). Run any todo-sqlite-cli command (e.g. `todo-sqlite-cli doctor`) against the database that's behind to migrate it to schema v"@
        + int_to_dec(SCHEMA_VERSION as int) + " first, then retry."@
}

/// Two present databases disagree on their version.
pub open spec fn versions_disagree(l: Seq<(&str, Option<i64>)>) -> bool {
    exists|i: int, j: int| 0 <= i < l.len() && 0 <= j < l.len() && #[trigger] l[i].1 is Some && #[trigger] l[j].1 is Some
        && l[i].1 != l[j].1
}

fn push_opt_debug(m: &mut String, v: Option<i64>)
    ensures
        final(m)@ == old(m)@ + opt_debug(v),
{
    match v {
        Some(n) => {
            push_str(m, "Some(");
            let d = i64_to_string(n);
            push_str(m, d.as_str());
            push_str(m, ")");
        },
        None => push_str(m, "None"),
    }
}

/// Checks that every present database (one whose version could be read
/// before any migration) has the same schema version; a merge must not
/// proceed otherwise.
pub fn require_matching_schema_versions(labeled: &[(&str, Option<i64>)]) -> (r: Result<(), CliError>)
    ensures
        r is Ok <==> !versions_disagree(labeled@),
        r matches Err(e) ==> is_user_error(e, versions_differ_msg(labeled@)),
{
    let mut first: Option<i64> = None;
    let mut differ = false;
    let mut i: usize = 0;
    while i < labeled.len()
        invariant
            i <= labeled@.len(),
            differ <==> versions_disagree(labeled@.take(i as int)),
            !differ ==> match first {
                None => forall|k: int| 0 <= k < i ==> #[trigger] labeled@[k].1 is None,
                Some(v) => exists|k: int| 0 <= k < i && #[trigger] labeled@[k].1 == Some(v),
            },
            !differ ==> forall|k: int| 0 <= k < i && #[trigger] labeled@[k].1 is Some ==> first == labeled@[k].1,
        decreases labeled@.len() - i,
    {
        let ghost t0 = labeled@.take(i as int);
        let ghost t1 = labeled@.take(i + 1);
        assert forall|k: int| 0 <= k < i implies t1[k] == t0[k] && t0[k] == labeled@[k] by {}
        assert(t1[i as int] == labeled@[i as int]);
        if !differ {
            match labeled[i].1 {
                Some(v) => {
                    match first {
                        None => {
                            first = Some(v);
                            assert(!versions_disagree(t1)) by {
                                if versions_disagree(t1) {
                                    let (a, b) = choose|a: int, b: int| 0 <= a < t1.len() && 0 <= b < t1.len() && #[trigger] t1[a].1 is Some && #[trigger] t1[b].1 is Some && t1[a].1 != t1[b].1;
                                    assert(labeled@[a].1 is Some);
                                }
                            }
                        },
                        Some(f) => {
                            if f != v {
                                differ = true;
                                let ghost kf = choose|k: int| 0 <= k < i && #[trigger] labeled@[k].1 == Some(f);
                                assert(t1[kf].1 is Some && t1[i as int].1 is Some && t1[kf].1 != t1[i as int].1);
                                assert(versions_disagree(t1));
                            } else {
                                assert(!versions_disagree(t1)) by {
                                    if versions_disagree(t1) {
                                        let (a, b) = choose|a: int, b: int| 0 <= a < t1.len() && 0 <= b < t1.len() && #[trigger] t1[a].1 is Some && #[trigger] t1[b].1 is Some && t1[a].1 != t1[b].1;
                                        assert(labeled@[a].1 is Some);
                                        assert(labeled@[b].1 is Some);
                                    }
                                }
                            }
                        },
                    }
                },
                None => {
                    assert(!versions_disagree(t1)) by {
                        if versions_disagree(t1) {
                            let (a, b) = choose|a: int, b: int| 0 <= a < t1.len() && 0 <= b < t1.len() && #[trigger] t1[a].1 is Some && #[trigger] t1[b].1 is Some && t1[a].1 != t1[b].1;
                            assert(labeled@[a].1 is Some);
                            assert(labeled@[b].1 is Some);
                        }
                    }
                },
            }
        } else {
            assert(versions_disagree(t1)) by {
                let (a, b) = choose|a: int, b: int| 0 <= a < t0.len() && 0 <= b < t0.len() && #[trigger] t0[a].1 is Some && #[trigger] t0[b].1 is Some && t0[a].1 != t0[b].1;
                assert(t1[a] == t0[a] && t1[b] == t0[b]);
            }
        }
        i = i + 1;
    }
    assert(labeled@.take(labeled@.len() as int) =~= labeled@);
    if !differ {
        return Ok(());
    }
    let mut m = "refusing to merge: schema versions differ (".to_string();
    let ghost head = m@;
    let mut j: usize = 0;
    while j < labeled.len()
        invariant
            j <= labeled@.len(),
            m@ == head + versions_detail(labeled@.take(j as int)),
        decreases labeled@.len() - j,
    {
        let ghost before = m@;
        if j > 0 {
            push_str(&mut m, ", ");
        }
        push_str(&mut m, labeled[j].0);
        push_str(&mut m, "=");
        push_opt_debug(&mut m, labeled[j].1);
        assert(labeled@.take(j + 1).drop_last() =~= labeled@.take(j as int));
        if j == 0 {
            assert(m@ =~= head + versions_detail(labeled@.take(j + 1)));
        } else {
            assert(m@ =~= head + versions_detail(labeled@.take(j + 1)));
        }
        j = j + 1;
    }
    assert(labeled@.take(labeled@.len() as int) =~= labeled@);
    push_str(&mut m, ") — migrating mid-merge would mint fresh, uncorrelated uuids for whichever side is behind and duplicate every pre-existing task (see CORRUPTION_LOG.md). Run any todo-sqlite-cli command (e.g. `todo-sqlite-cli doctor`) against the database that's behind to migrate it to schema v");
    let s = i64_to_string(SCHEMA_VERSION);
    push_str(&mut m, s.as_str());
    push_str(&mut m, " first, then retry.");
    assert(m@ =~= versions_differ_msg(labeled@));
    Err(CliError::User(m))
}

/// The last position of `id` in `ids` (a later row replaces an earlier one,
/// as in a map filled in order).
pub open spec fn last_index(ids: Seq<i64>, id: i64) -> Option<int>
    decreases ids.len(),
{
    if ids.len() == 0 {
        None
    } else if ids.last() == id {
        Some(ids.len() - 1)
    } else {
        last_index(ids.drop_last(), id)
    }
}

proof fn lemma_last_index(ids: Seq<i64>, id: i64)
    ensures
        match last_index(ids, id) {
            Some(k) => 0 <= k < ids.len() && ids[k] == id && forall|j: int| k < j < ids.len() ==> ids[j] != id,
            None => forall|j: int| 0 <= j < ids.len() ==> ids[j] != id,
        },
    decreases ids.len(),
{
    if ids.len() > 0 {
        lemma_last_index(ids.drop_last(), id);
        assert forall|j: int| 0 <= j < ids.len() - 1 implies ids.drop_last()[j] == ids[j] by {}
    }
}

fn find_last(ids: &Vec<i64>, id: i64) -> (r: Option<usize>)
    ensures
        match r {
            Some(k) => last_index(ids@, id) == Some(k as int),
            None => last_index(ids@, id) is None,
        },
{
    let mut k: usize = ids.len();
    assert(ids@.take(k as int) =~= ids@);
    while k > 0
        invariant
            k <= ids@.len(),
            last_index(ids@, id) == last_index(ids@.take(k as int), id),
        decreases k,
    {
        assert(ids@.take(k as int).drop_last() =~= ids@.take(k - 1));
        if ids[k - 1] == id {
            return Some(k - 1);
        }
        k = k - 1;
    }
    None
}

/// `<what> references unknown task id <id>`.
pub open spec fn unknown_id_msg(what: Seq<char>, id: i64) -> Seq<char> {
    what + " references unknown task id "@ + int_to_dec(id as int)
}

fn unknown_id(what: &str, id: i64) -> (e: CliError)
    ensures
        is_system_error(e, unknown_id_msg(what@, id)),
{
    let mut m = what.to_string();
    push_str(&mut m, " references unknown task id ");
    let d = i64_to_string(id);
    push_str(&mut m, d.as_str());
    CliError::System(m)
}

/// The uuid that the migration to uuids gives the task with display id `id`.
pub open spec fn uuid_for(ids: Seq<i64>, uuids: Seq<String>, id: i64) -> Option<Seq<char>> {
    match last_index(ids, id) {
        Some(k) => Some(uuids[k]@),
        None => None,
    }
}

/// The tag rows of the migration to uuids: each `(task id, tag)` row moves
/// to the uuid its task was given; a row naming an unknown task fails it.
pub fn repoint_tags(ids: &Vec<i64>, uuids: &Vec<String>, tags: &Vec<(i64, String)>) -> (r: Result<Vec<(String, String)>, CliError>)
    requires
        ids@.len() == uuids@.len(),
    ensures
        match r {
            Ok(v) => v@.len() == tags@.len() && forall|k: int| 0 <= k < tags@.len() ==>
                uuid_for(ids@, uuids@, tags@[k].0) == Some((#[trigger] v@[k]).0@) && v@[k].1@ == tags@[k].1@,
            Err(e) => exists|k: int| 0 <= k < tags@.len() && uuid_for(ids@, uuids@, #[trigger] tags@[k].0) is None
                && (forall|j: int| 0 <= j < k ==> uuid_for(ids@, uuids@, #[trigger] tags@[j].0) is Some)
                && is_system_error(e, unknown_id_msg("tag"@, tags@[k].0)),
        },
{
    let mut out: Vec<(String, String)> = Vec::new();
    let mut i: usize = 0;
    while i < tags.len()
        invariant
            i <= tags@.len(),
            ids@.len() == uuids@.len(),
            out@.len() == i,
            forall|k: int| 0 <= k < i ==> uuid_for(ids@, uuids@, tags@[k].0) == Some((#[trigger] out@[k]).0@) && out@[k].1@ == tags@[k].1@,
        decreases tags@.len() - i,
    {
        let id = tags[i].0;
        proof { lemma_last_index(ids@, id); }
        match find_last(ids, id) {
            Some(k) => {
                out.push((uuids[k].clone(), tags[i].1.clone()));
            },
            None => {
                assert forall|j: int| 0 <= j < i implies uuid_for(ids@, uuids@, #[trigger] tags@[j].0) is Some by {
                    assert(uuid_for(ids@, uuids@, tags@[j].0) == Some(out@[j].0@));
                }
                return Err(unknown_id("tag", id));
            },
        }
        i = i + 1;
    }
    Ok(out)
}

/// The dependency rows of the migration to uuids: each `(task id, depends
/// on id)` row moves to the uuids the two tasks were given; a row naming an
/// unknown task fails it (its task first).
pub fn repoint_deps(ids: &Vec<i64>, uuids: &Vec<String>, deps: &Vec<(i64, i64)>) -> (r: Result<Vec<Link>, CliError>)
    requires
        ids@.len() == uuids@.len(),
    ensures
        match r {
            Ok(v) => v@.len() == deps@.len() && forall|k: int| 0 <= k < deps@.len() ==>
                uuid_for(ids@, uuids@, deps@[k].0) == Some((#[trigger] v@[k]).from@)
                && uuid_for(ids@, uuids@, deps@[k].1) == Some(v@[k].to@),
            Err(e) => exists|k: int| 0 <= k < deps@.len()
                && (forall|j: int| 0 <= j < k ==> uuid_for(ids@, uuids@, #[trigger] deps@[j].0) is Some && uuid_for(ids@, uuids@, deps@[j].1) is Some)
                && (if uuid_for(ids@, uuids@, #[trigger] deps@[k].0) is None {
                    is_system_error(e, unknown_id_msg("dep"@, deps@[k].0))
                } else {
                    uuid_for(ids@, uuids@, deps@[k].1) is None && is_system_error(e, unknown_id_msg("dep"@, deps@[k].1))
                }),
        },
{
    let mut out: Vec<Link> = Vec::new();
    let mut i: usize = 0;
    while i < deps.len()
        invariant
            i <= deps@.len(),
            ids@.len() == uuids@.len(),
            out@.len() == i,
            forall|k: int| 0 <= k < i ==> uuid_for(ids@, uuids@, deps@[k].0) == Some((#[trigger] out@[k]).from@)
                && uuid_for(ids@, uuids@, deps@[k].1) == Some(out@[k].to@),
        decreases deps@.len() - i,
    {
        let (a, b) = deps[i];
        proof {
            lemma_last_index(ids@, a);
            lemma_last_index(ids@, b);
            assert forall|j: int| 0 <= j < i implies uuid_for(ids@, uuids@, #[trigger] deps@[j].0) is Some && uuid_for(ids@, uuids@, deps@[j].1) is Some by {
                assert(uuid_for(ids@, uuids@, deps@[j].0) == Some(out@[j].from@));
            }
        }
        let ka = match find_last(ids, a) {
            Some(k) => k,
            None => { return Err(unknown_id("dep", a)); },
        };
        let kb = match find_last(ids, b) {
            Some(k) => k,
            None => { return Err(unknown_id("dep", b)); },
        };
        out.push(Link { from: uuids[ka].clone(), to: uuids[kb].clone() });
        i = i + 1;
    }
    Ok(out)
}

/// `v` holds the tag rows moved to the uuids given to the tasks.
pub open spec fn tags_repointed(ids: Seq<i64>, uuids: Seq<String>, tags: Seq<(i64, String)>, v: Seq<(String, String)>) -> bool {
    &&& v.len() == tags.len()
    &&& forall|k: int| 0 <= k < tags.len() ==>
        uuid_for(ids, uuids, tags[k].0) == Some((#[trigger] v[k]).0@) && v[k].1@ == tags[k].1@
}

/// `v` holds the dependency rows moved to the uuids given to the tasks.
pub open spec fn deps_repointed(ids: Seq<i64>, uuids: Seq<String>, deps: Seq<(i64, i64)>, v: Seq<Link>) -> bool {
    &&& v.len() == deps.len()
    &&& forall|k: int| 0 <= k < deps.len() ==>
        uuid_for(ids, uuids, deps[k].0) == Some((#[trigger] v[k]).from@) && uuid_for(ids, uuids, deps[k].1) == Some(v[k].to@)
}

/// Every tag row names a task of the database.
pub open spec fn tags_known(ids: Seq<i64>, tags: Seq<(i64, String)>) -> bool {
    forall|k: int| 0 <= k < tags.len() ==> last_index(ids, (#[trigger] tags[k]).0) is Some
}

/// Both tasks of every dependency row are tasks of the database.
pub open spec fn deps_known(ids: Seq<i64>, deps: Seq<(i64, i64)>) -> bool {
    forall|k: int| 0 <= k < deps.len() ==> last_index(ids, (#[trigger] deps[k]).0) is Some && last_index(ids, deps[k].1) is Some
}

/// The error of the first tag row that names an unknown task.
pub open spec fn tags_fail(ids: Seq<i64>, tags: Seq<(i64, String)>, e: CliError) -> bool {
    exists|k: int| 0 <= k < tags.len() && last_index(ids, (#[trigger] tags[k]).0) is None
        && (forall|j: int| 0 <= j < k ==> last_index(ids, (#[trigger] tags[j]).0) is Some)
        && is_system_error(e, unknown_id_msg("tag"@, tags[k].0))
}

/// The error of the first dependency row that names an unknown task (its
/// task before its dependency).
pub open spec fn deps_fail(ids: Seq<i64>, deps: Seq<(i64, i64)>, e: CliError) -> bool {
    exists|k: int| 0 <= k < deps.len()
        && (forall|j: int| 0 <= j < k ==> last_index(ids, (#[trigger] deps[j]).0) is Some && last_index(ids, deps[j].1) is Some)
        && (if last_index(ids, (#[trigger] deps[k]).0) is None {
            is_system_error(e, unknown_id_msg("dep"@, deps[k].0))
        } else {
            last_index(ids, deps[k].1) is None && is_system_error(e, unknown_id_msg("dep"@, deps[k].1))
        })
}

/// Whether no two strings of the list are equal.
fn strings_distinct(v: &Vec<String>) -> (r: bool)
    ensures
        r == seq_view(v@).no_duplicates(),
{
    let mut i: usize = 0;
    while i < v.len()
        invariant
            i <= v@.len(),
            forall|a: int, b: int| 0 <= a < i && 0 <= b < v@.len() && a != b ==> v@[a]@ != v@[b]@,
        decreases v@.len() - i,
    {
        let mut j: usize = 0;
        while j < v.len()
            invariant
                i < v@.len(),
                j <= v@.len(),
                forall|a: int, b: int| 0 <= a < i && 0 <= b < v@.len() && a != b ==> v@[a]@ != v@[b]@,
                forall|b: int| 0 <= b < j && b != i ==> v@[i as int]@ != v@[b]@,
            decreases v@.len() - j,
        {
            if j != i && str_eq(v[i].as_str(), v[j].as_str()) {
                proof {
                    assert(seq_view(v@)[i as int] == seq_view(v@)[j as int]);
                }
                return false;
            }
            j = j + 1;
        }
        i = i + 1;
    }
    proof {
        assert forall|a: int, b: int| 0 <= a < seq_view(v@).len() && 0 <= b < seq_view(v@).len() && a != b
            implies seq_view(v@)[a] != seq_view(v@)[b] by {
            assert(v@[a]@ != v@[b]@);
        }
    }
    true
}

/// The move of a database to uuid identity with the uuids drawn for its
/// tasks (one per task, in order): the drawn uuids must be distinct (the
/// new table's uuid key), then every tag row must name a known task, then
/// every dependency row; the rows are repointed to the drawn uuids.
pub fn uuid_migration_with(ids: &Vec<i64>, tags: &Vec<(i64, String)>, deps: &Vec<(i64, i64)>, drawn: Vec<String>)
    -> (r: Result<(Vec<String>, Vec<(String, String)>, Vec<Link>), CliError>)
    requires
        drawn@.len() == ids@.len(),
    ensures
        !seq_view(drawn@).no_duplicates() ==> (r matches Err(e) && is_system_error(e, uuid_taken_msg("tasks_new insert"@, "tasks_new"@))),
        seq_view(drawn@).no_duplicates() && !tags_known(ids@, tags@) ==> (r matches Err(e) && tags_fail(ids@, tags@, e)),
        seq_view(drawn@).no_duplicates() && tags_known(ids@, tags@) && !deps_known(ids@, deps@)
            ==> (r matches Err(e) && deps_fail(ids@, deps@, e)),
        seq_view(drawn@).no_duplicates() && tags_known(ids@, tags@) && deps_known(ids@, deps@)
            ==> (r matches Ok((us, ts, ds)) && us == drawn
                && tags_repointed(ids@, us@, tags@, ts@) && deps_repointed(ids@, us@, deps@, ds@)),
{
    if !strings_distinct(&drawn) {
        proof {
            reveal_strlit("tasks_new insert failed: UNIQUE constraint failed: tasks_new.uuid");
            reveal_strlit("tasks_new insert");
            reveal_strlit(" failed: UNIQUE constraint failed: ");
            reveal_strlit("tasks_new");
            reveal_strlit(".uuid");
            assert("tasks_new insert failed: UNIQUE constraint failed: tasks_new.uuid"@
                =~= uuid_taken_msg("tasks_new insert"@, "tasks_new"@));
        }
        return Err(CliError::System("tasks_new insert failed: UNIQUE constraint failed: tasks_new.uuid".to_string()));
    }
    let us = drawn;
    let ts = match repoint_tags(ids, &us, tags) {
        Ok(v) => v,
        Err(e) => {
            proof {
                let k = choose|k: int| 0 <= k < tags@.len() && uuid_for(ids@, us@, #[trigger] tags@[k].0) is None
                    && (forall|j: int| 0 <= j < k ==> uuid_for(ids@, us@, #[trigger] tags@[j].0) is Some)
                    && is_system_error(e, unknown_id_msg("tag"@, tags@[k].0));
                assert forall|j: int| 0 <= j < k implies last_index(ids@, (#[trigger] tags@[j]).0) is Some by {
                    assert(uuid_for(ids@, us@, tags@[j].0) is Some);
                }
                assert(last_index(ids@, tags@[k].0) is None);
                assert(!tags_known(ids@, tags@));
            }
            return Err(e);
        },
    };
    proof {
        assert forall|k: int| 0 <= k < tags@.len() implies last_index(ids@, (#[trigger] tags@[k]).0) is Some by {
            assert(uuid_for(ids@, us@, tags@[k].0) == Some(ts@[k].0@));
        }
    }
    let ds = match repoint_deps(ids, &us, deps) {
        Ok(v) => v,
        Err(e) => {
            proof {
                let k = choose|k: int| 0 <= k < deps@.len()
                    && (forall|j: int| 0 <= j < k ==> uuid_for(ids@, us@, #[trigger] deps@[j].0) is Some && uuid_for(ids@, us@, deps@[j].1) is Some)
                    && (if uuid_for(ids@, us@, #[trigger] deps@[k].0) is None {
                        is_system_error(e, unknown_id_msg("dep"@, deps@[k].0))
                    } else {
                        uuid_for(ids@, us@, deps@[k].1) is None && is_system_error(e, unknown_id_msg("dep"@, deps@[k].1))
                    });
                assert forall|j: int| 0 <= j < k implies last_index(ids@, (#[trigger] deps@[j]).0) is Some && last_index(ids@, deps@[j].1) is Some by {
                    assert(uuid_for(ids@, us@, deps@[j].0) is Some && uuid_for(ids@, us@, deps@[j].1) is Some);
                }
                assert(deps_fail(ids@, deps@, e));
                assert(!deps_known(ids@, deps@));
            }
            return Err(e);
        },
    };
    proof {
        assert forall|k: int| 0 <= k < deps@.len() implies last_index(ids@, (#[trigger] deps@[k]).0) is Some && last_index(ids@, deps@[k].1) is Some by {
            assert(uuid_for(ids@, us@, deps@[k].0) == Some(ds@[k].from@));
        }
    }
    Ok((us, ts, ds))
}

/// The move of a database to uuid identity: `uuid_migration_with` on one
/// fresh uuid per task (which ones is chance; their form is stated). With
/// at most one task no two draws can clash, so it succeeds exactly when
/// every row names a known task; a clash of two draws is reported only
/// when there are at least two tasks.
pub fn uuid_migration(ids: &Vec<i64>, tags: &Vec<(i64, String)>, deps: &Vec<(i64, i64)>)
    -> (r: Result<(Vec<String>, Vec<(String, String)>, Vec<Link>), CliError>)
    ensures
        r is Ok ==> tags_known(ids@, tags@) && deps_known(ids@, deps@),
        ids@.len() <= 1 && tags_known(ids@, tags@) && deps_known(ids@, deps@) ==> r is Ok,
        match r {
            Ok((us, ts, ds)) => us@.len() == ids@.len() && (forall|k: int| 0 <= k < us@.len() ==> hyphenated_uuid((#[trigger] us@[k])@))
                && seq_view(us@).no_duplicates()
                && tags_repointed(ids@, us@, tags@, ts@) && deps_repointed(ids@, us@, deps@, ds@),
            Err(e) => (is_system_error(e, uuid_taken_msg("tasks_new insert"@, "tasks_new"@)) && ids@.len() >= 2)
                || tags_fail(ids@, tags@, e) || (tags_known(ids@, tags@) && deps_fail(ids@, deps@, e)),
        },
{
    let mut drawn: Vec<String> = Vec::new();
    let mut i: usize = 0;
    while i < ids.len()
        invariant
            i <= ids@.len(),
            drawn@.len() == i,
            forall|k: int| 0 <= k < drawn@.len() ==> hyphenated_uuid((#[trigger] drawn@[k])@),
        decreases ids@.len() - i,
    {
        drawn.push(new_uuid());
        i = i + 1;
    }
    proof {
        // a single draw cannot clash
        if ids@.len() <= 1 {
            assert(seq_view(drawn@).no_duplicates());
        }
    }
    uuid_migration_with(ids, tags, deps, drawn)
}

} // verus!
