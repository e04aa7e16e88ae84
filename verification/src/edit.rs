//! The checks and column values of `add` and `edit`: titles, the three
//! mutually exclusive details edits, the location edit, the targets of new
//! dependency and "see also" links, tag de-duplication, the next display id
//! and the uuid of a new task.
use vstd::prelude::*;
use crate::error::{CliError, is_system_error, is_user_error};
use crate::strs::{opt_view, seq_view};
use crate::text::{i64_to_string, int_to_dec, push_str, str_eq, trim, trim_spec};

verus! {

/// The message of every error of a failed check below.
pub open spec fn err_msg(e: CliError) -> Seq<char> {
    match e {
        CliError::User(s) => s@,
        CliError::System(s) => s@,
    }
}

/// A title is accepted unless it is blank.
pub fn check_title(title: &str) -> (r: Result<(), CliError>)
    ensures
        r is Ok <==> trim_spec(title@).len() > 0,
        r matches Err(e) ==> is_user_error(e, "title must not be empty"@),
{
    let t = trim(title);
    if t.unicode_len() == 0 {
        Err(CliError::User("title must not be empty".to_string()))
    } else {
        Ok(())
    }
}

/// The optional title of `edit`: checked only when given.
pub fn check_new_title(title: &Option<String>) -> (r: Result<(), CliError>)
    ensures
        r is Ok <==> (title matches Some(t) ==> trim_spec(t@).len() > 0),
        r matches Err(e) ==> is_user_error(e, "title must not be empty"@),
{
    match title {
        Some(t) => check_title(t.as_str()),
        None => Ok(()),
    }
}

/// Details once `extra` is appended: `extra` alone when there were none
/// (or they were empty), else the old text, a newline and `extra`.
pub open spec fn appended(current: Option<Seq<char>>, extra: Seq<char>) -> Seq<char> {
    match current {
        Some(c) => if c.len() == 0 { extra } else { c + "\n"@ + extra },
        None => extra,
    }
}

/// How many of the three details edits are given.
pub open spec fn details_edits(details: Option<Seq<char>>, append: Option<Seq<char>>, clear: bool) -> int {
    (if details is Some { 1int } else { 0int }) + (if append is Some { 1int } else { 0int })
        + (if clear { 1int } else { 0int })
}

/// The details column after `edit`: `--details`, `--append-details` and
/// `--clear-details` are mutually exclusive, an append must not be empty,
/// and with none of them the column keeps its value.
pub fn apply_details(current: &Option<String>, details: &Option<String>, append: &Option<String>, clear: bool) -> (r: Result<Option<String>, CliError>)
    ensures
        details_edits(opt_view(*details), opt_view(*append), clear) > 1 ==> (r matches Err(e)
            && is_user_error(e, "--details, --append-details, and --clear-details are mutually exclusive"@)),
        details_edits(opt_view(*details), opt_view(*append), clear) <= 1 ==> match r {
            Ok(v) => match (details, append) {
                (Some(d), _) => opt_view(v) == Some(d@),
                (None, Some(x)) => x@.len() > 0 && opt_view(v) == Some(appended(opt_view(*current), x@)),
                (None, None) => if clear { v is None } else { opt_view(v) == opt_view(*current) },
            },
            Err(e) => append matches Some(x) && x@.len() == 0
                && is_user_error(e, "--append-details text must not be empty"@),
        },
{
    let count: u8 = (if details.is_some() { 1u8 } else { 0u8 }) + (if append.is_some() { 1u8 } else { 0u8 })
        + (if clear { 1u8 } else { 0u8 });
    if count > 1 {
        return Err(CliError::User("--details, --append-details, and --clear-details are mutually exclusive".to_string()));
    }
    match details {
        Some(d) => { return Ok(Some(d.clone())); },
        None => {},
    }
    match append {
        Some(x) => {
            if x.unicode_len() == 0 {
                return Err(CliError::User("--append-details text must not be empty".to_string()));
            }
            match current {
                Some(c) => {
                    if c.unicode_len() == 0 {
                        Ok(Some(x.clone()))
                    } else {
                        let mut n = c.clone();
                        push_str(&mut n, "\n");
                        push_str(&mut n, x.as_str());
                        Ok(Some(n))
                    }
                },
                None => Ok(Some(x.clone())),
            }
        },
        None => {
            if clear {
                Ok(None)
            } else {
                match current {
                    Some(c) => Ok(Some(c.clone())),
                    None => Ok(None),
                }
            }
        },
    }
}

/// `--<flag> and --clear-<flag> are mutually exclusive`.
pub open spec fn field_mutex_msg(flag: Seq<char>) -> Seq<char> {
    "--"@ + flag + " and --clear-"@ + flag + " are mutually exclusive"@
}

/// An optional text column after `edit` (`location`, `project-name`,
/// `implementation-client`): setting it and clearing it are mutually
/// exclusive; with neither the column keeps its value.
pub fn apply_optional_field(flag: &str, current: &Option<String>, value: &Option<String>, clear: bool) -> (r: Result<Option<String>, CliError>)
    ensures
        (value is Some && clear) <==> r is Err,
        r matches Err(e) ==> is_user_error(e, field_mutex_msg(flag@)),
        r matches Ok(v) ==> opt_view(v) == (match value {
            Some(l) => Some(l@),
            None => if clear { None } else { opt_view(*current) },
        }),
{
    if value.is_some() && clear {
        let mut m = "--".to_string();
        push_str(&mut m, flag);
        push_str(&mut m, " and --clear-");
        push_str(&mut m, flag);
        push_str(&mut m, " are mutually exclusive");
        return Err(CliError::User(m));
    }
    match value {
        Some(l) => Ok(Some(l.clone())),
        None => {
            if clear {
                Ok(None)
            } else {
                match current {
                    Some(c) => Ok(Some(c.clone())),
                    None => Ok(None),
                }
            }
        },
    }
}

/// The location column after `edit`.
pub fn apply_location(current: &Option<String>, location: &Option<String>, clear: bool) -> (r: Result<Option<String>, CliError>)
    ensures
        (location is Some && clear) <==> r is Err,
        r matches Err(e) ==> is_user_error(e, field_mutex_msg("location"@)),
        r matches Ok(v) ==> opt_view(v) == (match location {
            Some(l) => Some(l@),
            None => if clear { None } else { opt_view(*current) },
        }),
{
    apply_optional_field("location", current, location, clear)
}

/// The kind of link whose targets are being resolved.
#[derive(Debug, PartialEq, Eq, Structural)]
pub enum LinkKind {
    Dependency,
    Related,
}

/// The label resolution errors carry: `dependency <raw>: ` or `related task <raw>: `.
pub open spec fn link_label(kind: LinkKind, raw: Seq<char>) -> Seq<char> {
    match kind {
        LinkKind::Dependency => "dependency "@ + raw + ": "@,
        LinkKind::Related => "related task "@ + raw + ": "@,
    }
}

/// The error for a link from a task to itself.
pub open spec fn self_link_msg(kind: LinkKind) -> Seq<char> {
    match kind {
        LinkKind::Dependency => "a task cannot depend on itself"@,
        LinkKind::Related => "a task cannot be related to itself"@,
    }
}

/// Target `k` resolved, and to a task other than `self_uuid` (when given).
pub open spec fn target_ok(self_uuid: Option<Seq<char>>, r: Result<String, CliError>) -> bool {
    match r {
        Ok(u) => !(self_uuid == Some(u@)),
        Err(_) => false,
    }
}

/// The outcome is the uuid `u`.
pub open spec fn resolved_to(r: Result<String, CliError>, u: Seq<char>) -> bool {
    match r {
        Ok(x) => x@ == u,
        Err(_) => false,
    }
}

/// The error the first failing target gives.
pub open spec fn target_error(kind: LinkKind, raw: Seq<char>, r: Result<String, CliError>, e: CliError) -> bool {
    match r {
        Err(inner) => is_user_error(e, link_label(kind, raw) + err_msg(inner)),
        Ok(_) => is_user_error(e, self_link_msg(kind)),
    }
}

/// The uuids of the tasks that the link arguments name, in order. Each
/// argument comes with the outcome of resolving it; the first one that did
/// not resolve, or that names the task itself, fails the whole edit.
pub fn collect_targets(kind: LinkKind, self_uuid: &Option<String>, raws: &Vec<String>, resolved: &Vec<Result<String, CliError>>) -> (r: Result<Vec<String>, CliError>)
    requires
        raws@.len() == resolved@.len(),
    ensures
        match r {
            Ok(v) => (forall|k: int| 0 <= k < resolved@.len() ==> #[trigger] target_ok(opt_view(*self_uuid), resolved@[k]))
                && v@.len() == resolved@.len()
                && forall|k: int| 0 <= k < v@.len() ==> resolved_to(resolved@[k], #[trigger] v@[k]@),
            Err(e) => exists|k: int| 0 <= k < resolved@.len()
                && (forall|j: int| 0 <= j < k ==> #[trigger] target_ok(opt_view(*self_uuid), resolved@[j]))
                && !target_ok(opt_view(*self_uuid), #[trigger] resolved@[k])
                && target_error(kind, raws@[k]@, resolved@[k], e),
        },
{
    let mut out: Vec<String> = Vec::new();
    let mut i: usize = 0;
    while i < resolved.len()
        invariant
            i <= resolved@.len(),
            raws@.len() == resolved@.len(),
            out@.len() == i,
            forall|j: int| 0 <= j < i ==> #[trigger] target_ok(opt_view(*self_uuid), resolved@[j]),
            forall|k: int| 0 <= k < i ==> resolved_to(resolved@[k], #[trigger] out@[k]@),
        decreases resolved@.len() - i,
    {
        match &resolved[i] {
            Err(inner) => {
                let mut m = match kind {
                    LinkKind::Dependency => "dependency ".to_string(),
                    LinkKind::Related => "related task ".to_string(),
                };
                push_str(&mut m, raws[i].as_str());
                push_str(&mut m, ": ");
                push_str(&mut m, inner.message());
                let e = CliError::User(m);
                assert(target_error(kind, raws@[i as int]@, resolved@[i as int], e));
                return Err(e);
            },
            Ok(u) => {
                let is_self = match self_uuid {
                    Some(s) => str_eq(u.as_str(), s.as_str()),
                    None => false,
                };
                if is_self {
                    let e = match kind {
                        LinkKind::Dependency => CliError::User("a task cannot depend on itself".to_string()),
                        LinkKind::Related => CliError::User("a task cannot be related to itself".to_string()),
                    };
                    assert(target_error(kind, raws@[i as int]@, resolved@[i as int], e));
                    return Err(e);
                }
                out.push(u.clone());
            },
        }
        i = i + 1;
    }
    Ok(out)
}

/// The first occurrence of each string, in order of first occurrence.
pub open spec fn dedup_spec(s: Seq<Seq<char>>) -> Seq<Seq<char>>
    decreases s.len(),
{
    if s.len() == 0 {
        Seq::empty()
    } else {
        let d = dedup_spec(s.drop_last());
        if d.contains(s.last()) { d } else { d.push(s.last()) }
    }
}

/// Drops repeated strings, keeping the first occurrence of each.
pub fn dedup(v: &Vec<String>) -> (r: Vec<String>)
    ensures
        seq_view(r@) == dedup_spec(seq_view(v@)),
{
    let mut out: Vec<String> = Vec::new();
    let mut i: usize = 0;
    while i < v.len()
        invariant
            i <= v@.len(),
            seq_view(out@) == dedup_spec(seq_view(v@.take(i as int))),
        decreases v@.len() - i,
    {
        let ghost before = seq_view(out@);
        assert(seq_view(v@.take(i + 1)).drop_last() =~= seq_view(v@.take(i as int)));
        assert(seq_view(v@.take(i + 1)).last() == v@[i as int]@);
        if !crate::strs::contains_str(&out, v[i].as_str()) {
            out.push(v[i].clone());
            assert(seq_view(out@) =~= before.push(v@[i as int]@));
        }
        i = i + 1;
    }
    assert(v@.take(v@.len() as int) =~= v@);
    out
}

/// The largest display id in use (of a non-empty list).
pub open spec fn max_id(ids: Seq<i64>) -> int
    decreases ids.len(),
{
    if ids.len() <= 1 {
        ids[0] as int
    } else {
        let m = max_id(ids.drop_last());
        if ids.last() > m { ids.last() as int } else { m }
    }
}

/// The display id of a new task, `COALESCE(MAX(id), 0) + 1`: one past the
/// largest id in use, 1 when there is none.
pub open spec fn next_id_spec(ids: Seq<i64>) -> int {
    if ids.len() == 0 { 1 } else { max_id(ids) + 1 }
}

proof fn lemma_max_id(ids: Seq<i64>)
    requires
        ids.len() > 0,
    ensures
        forall|j: int| 0 <= j < ids.len() ==> #[trigger] ids[j] <= max_id(ids),
        exists|j: int| 0 <= j < ids.len() && #[trigger] ids[j] == max_id(ids),
    decreases ids.len(),
{
    if ids.len() > 1 {
        lemma_max_id(ids.drop_last());
        assert forall|j: int| 0 <= j < ids.len() implies #[trigger] ids[j] <= max_id(ids) by {
            if j < ids.len() - 1 {
                assert(ids.drop_last()[j] == ids[j]);
            }
        }
        if ids.last() > max_id(ids.drop_last()) {
            assert(ids[ids.len() - 1] == max_id(ids));
        } else {
            let j = choose|j: int| 0 <= j < ids.drop_last().len() && #[trigger] ids.drop_last()[j] == max_id(ids.drop_last());
            assert(ids[j] == max_id(ids));
        }
    } else {
        assert(ids[0] == max_id(ids));
    }
}

proof fn lemma_next_id_above(ids: Seq<i64>)
    ensures
        forall|j: int| 0 <= j < ids.len() ==> #[trigger] ids[j] < next_id_spec(ids),
        ids.len() > 0 ==> next_id_spec(ids) <= i64::MAX + 1,
{
    if ids.len() > 0 {
        lemma_max_id(ids);
    }
}

/// The next display id; `None` when the largest id in use is `i64::MAX`.
/// The id it gives is above every id in use.
pub fn next_display_id(ids: &Vec<i64>) -> (r: Option<i64>)
    ensures
        match r {
            Some(n) => n == next_id_spec(ids@) && forall|j: int| 0 <= j < ids@.len() ==> #[trigger] ids@[j] < n,
            None => next_id_spec(ids@) > i64::MAX,
        },
{
    proof { lemma_next_id_above(ids@); }
    if ids.len() == 0 {
        return Some(1);
    }
    let mut m: i64 = ids[0];
    let mut i: usize = 1;
    while i < ids.len()
        invariant
            1 <= i <= ids@.len(),
            m == max_id(ids@.take(i as int)),
        decreases ids@.len() - i,
    {
        assert(ids@.take(i + 1).drop_last() =~= ids@.take(i as int));
        if ids[i] > m {
            m = ids[i];
        }
        i = i + 1;
    }
    assert(ids@.take(ids@.len() as int) =~= ids@);
    if m == i64::MAX {
        None
    } else {
        Some(m + 1)
    }
}

/// Lowercase hexadecimal digit.
pub open spec fn is_lower_hex(c: char) -> bool {
    ('0' <= c && c <= '9') || ('a' <= c && c <= 'f')
}

/// The hyphenated text form of a uuid: 36 characters, hyphens at 8, 13, 18
/// and 23, lowercase hexadecimal digits elsewhere.
pub open spec fn hyphenated_uuid(s: Seq<char>) -> bool {
    &&& s.len() == 36
    &&& forall|i: int| 0 <= i < 36 ==> if i == 8 || i == 13 || i == 18 || i == 23 {
        #[trigger] s[i] == '-'
    } else {
        is_lower_hex(s[i])
    }
}

/// `uuid::Uuid::new_v4().to_string()`: a fresh random uuid in its
/// hyphenated lowercase form. Which uuid comes out is chance; only its form
/// is stated.
#[verifier::external_body]
pub(crate) fn new_uuid() -> (s: String)
    ensures
        hyphenated_uuid(s@),
{
    uuid::Uuid::new_v4().to_string()
}

/// `next id query failed: ...`: what `COALESCE(MAX(id), 0) + 1` gives when
/// the largest id is `i64::MAX` (SQLite turns the sum into a real).
pub open spec fn ids_exhausted_msg() -> Seq<char> {
    "next id query failed: Invalid column type Real at index: 0, name: COALESCE(MAX(id), 0) + 1"@
}

/// The error of inserting a row whose uuid the table already holds.
pub open spec fn uuid_taken_msg(what: Seq<char>, table: Seq<char>) -> Seq<char> {
    what + " failed: UNIQUE constraint failed: "@ + table + ".uuid"@
}

/// The keys of a task `add` creates, given the display ids and uuids in
/// use and the uuid drawn for it: the display id after the highest one in
/// use; fails when the display ids are exhausted, else when the drawn uuid
/// is already in use.
pub fn task_keys_with(ids: &Vec<i64>, uuids: &Vec<String>, drawn: String) -> (r: Result<(i64, String), CliError>)
    ensures
        next_id_spec(ids@) > i64::MAX ==> (r matches Err(e) && is_system_error(e, ids_exhausted_msg())),
        next_id_spec(ids@) <= i64::MAX && seq_view(uuids@).contains(drawn@)
            ==> (r matches Err(e) && is_system_error(e, uuid_taken_msg("insert"@, "tasks"@))),
        next_id_spec(ids@) <= i64::MAX && !seq_view(uuids@).contains(drawn@)
            ==> (r matches Ok((id, u)) && id == next_id_spec(ids@) && u == drawn),
{
    match next_display_id(ids) {
        Some(id) => {
            if crate::strs::contains_str(uuids, drawn.as_str()) {
                proof {
                    reveal_strlit("insert failed: UNIQUE constraint failed: tasks.uuid");
                    reveal_strlit("insert");
                    reveal_strlit(" failed: UNIQUE constraint failed: ");
                    reveal_strlit("tasks");
                    reveal_strlit(".uuid");
                    assert("insert failed: UNIQUE constraint failed: tasks.uuid"@ =~= uuid_taken_msg("insert"@, "tasks"@));
                }
                Err(CliError::System("insert failed: UNIQUE constraint failed: tasks.uuid".to_string()))
            } else {
                Ok((id, drawn))
            }
        },
        None => Err(CliError::System("next id query failed: Invalid column type Real at index: 0, name: COALESCE(MAX(id), 0) + 1".to_string())),
    }
}

/// The keys of a task `add` creates: `task_keys_with` on a fresh uuid
/// (which one is chance; its form is stated). With no uuid in use and a
/// display id left, it always succeeds; it reports the drawn uuid as taken
/// only when some uuid is in use.
pub fn new_task_keys(ids: &Vec<i64>, uuids: &Vec<String>) -> (r: Result<(i64, String), CliError>)
    ensures
        uuids@.len() == 0 && next_id_spec(ids@) <= i64::MAX ==> r is Ok,
        match r {
            Ok((id, u)) => id == next_id_spec(ids@) && (forall|j: int| 0 <= j < ids@.len() ==> #[trigger] ids@[j] < id)
                && hyphenated_uuid(u@) && !seq_view(uuids@).contains(u@),
            Err(e) => if next_id_spec(ids@) > i64::MAX {
                is_system_error(e, ids_exhausted_msg())
            } else {
                is_system_error(e, uuid_taken_msg("insert"@, "tasks"@)) && uuids@.len() > 0
            },
        },
{
    proof { lemma_next_id_above(ids@); }
    let u = new_uuid();
    task_keys_with(ids, uuids, u)
}

/// `new id must be a positive integer (got <n>)`.
pub open spec fn bad_new_id_msg(n: i64) -> Seq<char> {
    "new id must be a positive integer (got "@ + int_to_dec(n as int) + ")"@
}

/// `renumber` takes only a positive new display id.
pub fn check_new_id(new_id: i64) -> (r: Result<(), CliError>)
    ensures
        r is Ok <==> new_id >= 1,
        r matches Err(e) ==> is_user_error(e, bad_new_id_msg(new_id)),
{
    if new_id < 1 {
        let mut m = "new id must be a positive integer (got ".to_string();
        let d = i64_to_string(new_id);
        push_str(&mut m, d.as_str());
        push_str(&mut m, ")");
        return Err(CliError::User(m));
    }
    Ok(())
}

/// `task <old> already has id <new>`.
pub open spec fn same_id_msg(old_id: i64, new_id: i64) -> Seq<char> {
    "task "@ + int_to_dec(old_id as int) + " already has id "@ + int_to_dec(new_id as int)
}

/// `id <new> is already in use by task <uuid> — pass --force to leave both sharing it`.
pub open spec fn id_in_use_msg(new_id: i64, other: Seq<char>) -> Seq<char> {
    "id "@ + int_to_dec(new_id as int) + " is already in use by task "@ + other + " — pass --force to leave both sharing it"@
}

/// Whether `renumber` may move a task from `old_id` to `new_id`, given the
/// uuid of another task already holding `new_id`, if any: not to the id it
/// has, and onto a used id only with `force`.
pub fn check_renumber(old_id: i64, new_id: i64, force: bool, holder: &Option<String>) -> (r: Result<(), CliError>)
    ensures
        old_id == new_id ==> (r matches Err(e) && is_user_error(e, same_id_msg(old_id, new_id))),
        old_id != new_id && !force && holder is Some ==> (r matches Err(e) && is_user_error(e, id_in_use_msg(new_id, holder->Some_0@))),
        old_id != new_id && (force || holder is None) ==> r is Ok,
{
    if old_id == new_id {
        let mut m = "task ".to_string();
        let a = i64_to_string(old_id);
        push_str(&mut m, a.as_str());
        push_str(&mut m, " already has id ");
        let b = i64_to_string(new_id);
        push_str(&mut m, b.as_str());
        return Err(CliError::User(m));
    }
    if !force {
        match holder {
            Some(other) => {
                let mut m = "id ".to_string();
                let a = i64_to_string(new_id);
                push_str(&mut m, a.as_str());
                push_str(&mut m, " is already in use by task ");
                push_str(&mut m, other.as_str());
                push_str(&mut m, " — pass --force to leave both sharing it");
                return Err(CliError::User(m));
            },
            None => {},
        }
    }
    Ok(())
}

} // verus!
