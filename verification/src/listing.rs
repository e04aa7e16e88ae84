//! `list`: the query its filters make (status, kind, tags, creation date,
//! row limit) and the order of its rows; and the choice of output format
//! that `--format` and `--json` make together.
use vstd::prelude::*;
use crate::dates::{parse_date_bound, rfc3339_utc_text, ymd_midnight_text, invalid_date_msg};
use crate::error::{CliError, is_user_error};
use crate::task::Task;
use crate::text::{i64_to_string, int_to_dec, nat_to_dec, push_str, str_eq, u64_to_string};

verus! {

/// The task columns every task query selects, in order.
pub open spec fn task_columns() -> Seq<char> {
    "id, uuid, title, details, status, priority, is_gate, created_at, started_at, completed_at, location, project_name, implementation_client"@
}

pub fn task_columns_text() -> (s: &'static str)
    ensures
        s@ == task_columns(),
{
    "id, uuid, title, details, status, priority, is_gate, created_at, started_at, completed_at, location, project_name, implementation_client"
}

/// One of the five status spellings.
pub open spec fn is_status_name(s: Seq<char>) -> bool {
    s == "pending"@ || s == "partial"@ || s == "in-progress"@ || s == "done"@ || s == "rejected"@
}

/// The status filter: `active`, `all`, or one status.
pub open spec fn valid_status_filter(s: Seq<char>) -> bool {
    s == "active"@ || s == "all"@ || is_status_name(s)
}

pub open spec fn valid_kind(k: Seq<char>) -> bool {
    k == "all"@ || k == "gate"@ || k == "task"@
}

pub open spec fn invalid_status_msg(s: Seq<char>) -> Seq<char> {
    "invalid --status '"@ + s + "' (expected pending|partial|in-progress|done|rejected|active|all)"@
}

pub open spec fn invalid_kind_msg(k: Seq<char>) -> Seq<char> {
    "invalid --kind '"@ + k + "' (expected gate|task|all)"@
}

/// The `WHERE` condition of the status filter.
pub open spec fn status_clause(s: Seq<char>) -> Seq<char> {
    if s == "active"@ {
        "status IN ('in-progress','partial','pending')"@
    } else if s == "all"@ {
        "1=1"@
    } else {
        "status = ?1"@
    }
}

/// The number of query parameters the status filter takes.
pub open spec fn status_params(s: Seq<char>) -> nat {
    if is_status_name(s) { 1 } else { 0 }
}

pub open spec fn kind_clause(k: Seq<char>) -> Seq<char> {
    if k == "gate"@ {
        " AND is_gate = 1"@
    } else if k == "task"@ {
        " AND is_gate = 0"@
    } else {
        ""@
    }
}

/// One tag condition, with its parameter number.
pub open spec fn tag_clause(idx: nat) -> Seq<char> {
    " AND uuid IN (SELECT task_uuid FROM tags WHERE tag = ?"@ + nat_to_dec(idx) + ")"@
}

/// The conditions of `n` tags whose parameters are numbered from `first`.
pub open spec fn tag_clauses(first: nat, n: nat) -> Seq<char>
    decreases n,
{
    if n == 0 {
        Seq::empty()
    } else {
        tag_clauses(first, (n - 1) as nat) + tag_clause(first + (n - 1) as nat)
    }
}

/// Active work first (in progress, partial, pending), then done and
/// rejected; within each, by priority, creation time, id.
pub open spec fn list_order() -> Seq<char> {
    " ORDER BY CASE status WHEN 'in-progress' THEN 0 WHEN 'partial' THEN 1 WHEN 'pending' THEN 2 WHEN 'done' THEN 3 WHEN 'rejected' THEN 4 END, priority ASC, created_at ASC, id ASC"@
}

/// The query of `list` for valid filters, `since` already normalized;
/// `project` says whether a project name is asked for.
pub open spec fn list_sql(status: Seq<char>, ntags: nat, project: bool, since: Option<Seq<char>>, limit: Option<i64>, kind: Seq<char>) -> Seq<char> {
    let before_since: nat = status_params(status) + ntags + (if project { 1nat } else { 0nat });
    "SELECT "@ + task_columns() + " FROM tasks WHERE "@ + status_clause(status) + kind_clause(kind)
        + tag_clauses(status_params(status) + 1, ntags)
        + (if project { " AND project_name = ?"@ + nat_to_dec(status_params(status) + ntags + 1) } else { Seq::empty() })
        + (match since { Some(_) => " AND created_at >= ?"@ + nat_to_dec(before_since + 1), None => Seq::empty() })
        + list_order()
        + (match limit { Some(n) => " LIMIT "@ + int_to_dec(n as int), None => Seq::empty() })
}

/// Its parameters: the status (when one is named), the tags, the project
/// name, the bound.
pub open spec fn list_params(status: Seq<char>, tags: Seq<Seq<char>>, project: Option<Seq<char>>, since: Option<Seq<char>>) -> Seq<Seq<char>> {
    (if is_status_name(status) { seq![status] } else { Seq::empty() }) + tags
        + (match project { Some(p) => seq![p], None => Seq::empty() })
        + (match since { Some(s) => seq![s], None => Seq::empty() })
}

/// The normalized `--since` bound, when given and readable.
pub open spec fn since_bound(since: Option<Seq<char>>) -> Option<Seq<char>> {
    match since {
        Some(s) => match rfc3339_utc_text(s) {
            Some(t) => Some(t),
            None => ymd_midnight_text(s),
        },
        None => None,
    }
}

fn is_status_name_exec(s: &str) -> (r: bool)
    ensures
        r == is_status_name(s@),
{
    str_eq(s, "pending") || str_eq(s, "partial") || str_eq(s, "in-progress") || str_eq(s, "done") || str_eq(s, "rejected")
}

fn push_nat(out: &mut String, n: usize)
    ensures
        final(out)@ == old(out)@ + nat_to_dec(n as nat),
{
    let s = u64_to_string(n as u64);
    push_str(out, s.as_str());
}

proof fn lemma_status_name_lengths()
    ensures
        forall|s: Seq<char>| #[trigger] is_status_name(s) ==> s.len() == 4 || s.len() == 7 || s.len() == 8 || s.len() == 11,
{
    reveal_strlit("pending");
    reveal_strlit("partial");
    reveal_strlit("in-progress");
    reveal_strlit("done");
    reveal_strlit("rejected");
    assert("pending"@.len() == 7);
    assert("partial"@.len() == 7);
    assert("in-progress"@.len() == 11);
    assert("done"@.len() == 4);
    assert("rejected"@.len() == 8);
}

fn check_filters(status: &str, kind: &str) -> (r: Result<(), CliError>)
    ensures
        !valid_status_filter(status@) ==> (r matches Err(e) && is_user_error(e, invalid_status_msg(status@))),
        valid_status_filter(status@) && !valid_kind(kind@) ==> (r matches Err(e) && is_user_error(e, invalid_kind_msg(kind@))),
        valid_status_filter(status@) && valid_kind(kind@) ==> r is Ok,
{
    if !(str_eq(status, "active") || str_eq(status, "all") || is_status_name_exec(status)) {
        let mut m = "invalid --status '".to_string();
        push_str(&mut m, status);
        push_str(&mut m, "' (expected pending|partial|in-progress|done|rejected|active|all)");
        return Err(CliError::User(m));
    }
    if !(str_eq(kind, "all") || str_eq(kind, "gate") || str_eq(kind, "task")) {
        let mut m = "invalid --kind '".to_string();
        push_str(&mut m, kind);
        push_str(&mut m, "' (expected gate|task|all)");
        return Err(CliError::User(m));
    }
    Ok(())
}

fn query_head(status: &str, kind: &str) -> (r: (String, Vec<String>))
    requires
        valid_status_filter(status@),
    ensures
        r.0@ == "SELECT "@ + task_columns() + " FROM tasks WHERE "@ + status_clause(status@) + kind_clause(kind@),
        r.1@.map_values(|p: String| p@) == (if is_status_name(status@) { seq![status@] } else { Seq::<Seq<char>>::empty() }),
        r.1@.len() == status_params(status@),
{
    let mut sql = "SELECT ".to_string();
    push_str(&mut sql, task_columns_text());
    push_str(&mut sql, " FROM tasks WHERE ");
    let mut params: Vec<String> = Vec::new();
    let ghost h0 = sql@;
    if str_eq(status, "active") {
        push_str(&mut sql, "status IN ('in-progress','partial','pending')");
        assert(!is_status_name(status@)) by {
            lemma_status_name_lengths();
            reveal_strlit("active");
            assert("active"@.len() == 6);
        }
    } else if str_eq(status, "all") {
        push_str(&mut sql, "1=1");
        assert(!is_status_name(status@)) by {
            lemma_status_name_lengths();
            reveal_strlit("all");
            assert("all"@.len() == 3);
        }
    } else {
        push_str(&mut sql, "status = ?1");
        params.push(status.to_string());
        assert(params@.map_values(|p: String| p@) =~= seq![status@]);
    }
    assert(sql@ =~= h0 + status_clause(status@));
    let ghost h1 = sql@;
    if str_eq(kind, "gate") {
        push_str(&mut sql, " AND is_gate = 1");
    } else if str_eq(kind, "task") {
        push_str(&mut sql, " AND is_gate = 0");
        assert(kind@ != "gate"@);
    } else {
        assert(kind_clause(kind@) == ""@);
        assert(sql@ =~= h1 + ""@) by { reveal_strlit(""); }
    }
    assert(sql@ =~= h1 + kind_clause(kind@));
    if !is_status_name_exec(status) {
        assert(params@.map_values(|p: String| p@) =~= Seq::<Seq<char>>::empty());
    }
    (sql, params)
}

fn push_tag_clauses(sql: &mut String, params: &mut Vec<String>, tags: &Vec<String>)
    requires
        old(params)@.len() + tags@.len() + 2 <= usize::MAX,
    ensures
        final(sql)@ == old(sql)@ + tag_clauses((old(params)@.len() + 1) as nat, tags@.len()),
        final(params)@.map_values(|p: String| p@) == old(params)@.map_values(|p: String| p@) + tags@.map_values(|t: String| t@),
        final(params)@.len() == old(params)@.len() + tags@.len(),
{
    let ghost head = sql@;
    let ghost p0 = params@.map_values(|p: String| p@);
    let first: usize = params.len() + 1;
    let mut i: usize = 0;
    while i < tags.len()
        invariant
            i <= tags@.len(),
            first == old(params)@.len() + 1,
            first + tags@.len() + 1 <= usize::MAX,
            params@.len() == first - 1 + i,
            sql@ == head + tag_clauses(first as nat, i as nat),
            params@.map_values(|p: String| p@) == p0 + tags@.take(i as int).map_values(|t: String| t@),
        decreases tags@.len() - i,
    {
        let idx = params.len() + 1;
        push_str(sql, " AND uuid IN (SELECT task_uuid FROM tags WHERE tag = ?");
        push_nat(sql, idx);
        push_str(sql, ")");
        let ghost pb = params@;
        params.push(tags[i].clone());
        assert(params@.map_values(|p: String| p@) =~= pb.map_values(|p: String| p@).push(tags@[i as int]@));
        assert(tags@.take(i + 1).map_values(|t: String| t@) =~= tags@.take(i as int).map_values(|t: String| t@).push(tags@[i as int]@));
        assert(sql@ =~= head + tag_clauses(first as nat, (i + 1) as nat));
        i = i + 1;
    }
    assert(tags@.take(tags@.len() as int) =~= tags@);
}

fn push_project_clause(sql: &mut String, params: &mut Vec<String>, project: Option<&str>)
    requires
        old(params)@.len() + 3 <= usize::MAX,
    ensures
        final(sql)@ == old(sql)@
            + (match project { Some(_) => " AND project_name = ?"@ + nat_to_dec((old(params)@.len() + 1) as nat), None => Seq::empty() }),
        final(params)@.map_values(|p: String| p@) == old(params)@.map_values(|p: String| p@)
            + (match project { Some(p) => seq![p@], None => Seq::empty() }),
        final(params)@.len() == old(params)@.len() + (if project is Some { 1int } else { 0int }),
{
    let ghost s0 = sql@;
    let ghost pb = params@;
    match project {
        Some(p) => {
            let idx = params.len() + 1;
            push_str(sql, " AND project_name = ?");
            push_nat(sql, idx);
            params.push(p.to_string());
            assert(params@.map_values(|x: String| x@) =~= pb.map_values(|x: String| x@).push(p@));
        },
        None => {
            assert(params@.map_values(|x: String| x@) =~= pb.map_values(|x: String| x@) + Seq::<Seq<char>>::empty());
            assert(sql@ =~= s0 + Seq::<char>::empty());
        },
    }
}

fn push_tail(sql: &mut String, params: &mut Vec<String>, since: Option<String>, limit: Option<i64>)
    requires
        old(params)@.len() + 2 <= usize::MAX,
    ensures
        final(sql)@ == old(sql)@
            + (match since { Some(_) => " AND created_at >= ?"@ + nat_to_dec((old(params)@.len() + 1) as nat), None => Seq::empty() })
            + list_order()
            + (match limit { Some(n) => " LIMIT "@ + int_to_dec(n as int), None => Seq::empty() }),
        final(params)@.map_values(|p: String| p@) == old(params)@.map_values(|p: String| p@)
            + (match since { Some(s) => seq![s@], None => Seq::empty() }),
{
    let ghost s0 = sql@;
    let ghost pb = params@;
    match since {
        Some(b) => {
            let idx = params.len() + 1;
            push_str(sql, " AND created_at >= ?");
            push_nat(sql, idx);
            let ghost bv = b@;
            params.push(b);
            assert(params@.map_values(|p: String| p@) =~= pb.map_values(|p: String| p@).push(bv));
        },
        None => {
            assert(params@.map_values(|p: String| p@) =~= pb.map_values(|p: String| p@) + Seq::<Seq<char>>::empty());
        },
    }
    let ghost s1 = sql@;
    push_str(sql, " ORDER BY CASE status WHEN 'in-progress' THEN 0 WHEN 'partial' THEN 1 WHEN 'pending' THEN 2 WHEN 'done' THEN 3 WHEN 'rejected' THEN 4 END, priority ASC, created_at ASC, id ASC");
    let ghost s2 = sql@;
    match limit {
        Some(n) => {
            push_str(sql, " LIMIT ");
            let d = i64_to_string(n);
            push_str(sql, d.as_str());
        },
        None => {},
    }
    assert(final(sql)@ =~= s0
        + (match since { Some(_) => " AND created_at >= ?"@ + nat_to_dec((old(params)@.len() + 1) as nat), None => Seq::empty() })
        + list_order()
        + (match limit { Some(n) => " LIMIT "@ + int_to_dec(n as int), None => Seq::empty() }));
}

/// The query and parameters of `list` for the given filters: status, tags
/// (all of them), project name, creation bound, row limit, kind.
pub fn build_list_query(status: &str, tags: &Vec<String>, project: Option<&str>, since: Option<&str>, limit: Option<i64>, kind: &str)
    -> (r: Result<(String, Vec<String>), CliError>)
    requires
        tags@.len() + 5 <= usize::MAX,
    ensures
        !valid_status_filter(status@) ==> (r matches Err(e) && is_user_error(e, invalid_status_msg(status@))),
        valid_status_filter(status@) && !valid_kind(kind@) ==> (r matches Err(e) && is_user_error(e, invalid_kind_msg(kind@))),
        valid_status_filter(status@) && valid_kind(kind@) ==> match since {
            Some(s) => match since_bound(Some(s@)) {
                Some(b) => r matches Ok((sql, params)) && sql@ == list_sql(status@, tags@.len(), project is Some, Some(b), limit, kind@)
                    && params@.map_values(|p: String| p@) == list_params(status@, tags@.map_values(|t: String| t@),
                        match project { Some(p) => Some(p@), None => None }, Some(b)),
                None => r matches Err(e) && is_user_error(e, invalid_date_msg(s@)),
            },
            None => r matches Ok((sql, params)) && sql@ == list_sql(status@, tags@.len(), project is Some, None, limit, kind@)
                && params@.map_values(|p: String| p@) == list_params(status@, tags@.map_values(|t: String| t@),
                    match project { Some(p) => Some(p@), None => None }, None),
        },
{
    match check_filters(status, kind) {
        Ok(()) => {},
        Err(e) => { return Err(e); },
    }
    let (mut sql, mut params) = query_head(status, kind);
    push_tag_clauses(&mut sql, &mut params, tags);
    push_project_clause(&mut sql, &mut params, project);
    let bound: Option<String> = match since {
        Some(s) => match parse_date_bound(s) {
            Ok(v) => Some(v),
            Err(e) => { return Err(e); },
        },
        None => None,
    };
    let ghost bv = crate::strs::opt_view(bound);
    assert(bv == since_bound(match since { Some(s) => Some(s@), None => None }));
    push_tail(&mut sql, &mut params, bound, limit);
    proof {
        let tv = tags@.map_values(|t: String| t@);
        let pv = match project { Some(p) => Some(p@), None => None };
        assert(sql@ =~= list_sql(status@, tags@.len(), project is Some, bv, limit, kind@));
        assert(params@.map_values(|p: String| p@) =~= list_params(status@, tv, pv, bv));
    }
    Ok((sql, params))
}

/// `invalid --format '<f>' (expected <a>|<b>|...)`.
pub open spec fn invalid_format_msg(f: Seq<char>, allowed: Seq<Seq<char>>) -> Seq<char> {
    "invalid --format '"@ + f + "' (expected "@ + crate::format::join_strs_seq(allowed, "|"@) + ")"@
}

/// The format in effect: `--format` when it is not the default; else
/// `json` under `--json`; else the default.
pub open spec fn effective_format(fmt: Seq<char>, json: bool, default: Seq<char>) -> Seq<char> {
    if fmt != default { fmt } else if json { "json"@ } else { default }
}

/// Picks the output format among `allowed` (whose first entry is the
/// default): its position, or an error naming the allowed ones.
pub fn choose_format(fmt: &str, json: bool, allowed: &Vec<String>) -> (r: Result<usize, CliError>)
    requires
        allowed@.len() >= 1,
    ensures
        match r {
            Ok(k) => k < allowed@.len() && allowed@[k as int]@ == effective_format(fmt@, json, allowed@[0]@),
            Err(e) => (forall|k: int| 0 <= k < allowed@.len() ==> #[trigger] allowed@[k]@ != effective_format(fmt@, json, allowed@[0]@))
                && is_user_error(e, invalid_format_msg(effective_format(fmt@, json, allowed@[0]@), allowed@.map_values(|a: String| a@))),
        },
{
    let eff: String = if !str_eq(fmt, allowed[0].as_str()) {
        fmt.to_string()
    } else if json {
        "json".to_string()
    } else {
        allowed[0].clone()
    };
    let mut k: usize = 0;
    while k < allowed.len()
        invariant
            k <= allowed@.len(),
            eff@ == effective_format(fmt@, json, allowed@[0]@),
            forall|j: int| 0 <= j < k ==> #[trigger] allowed@[j]@ != eff@,
        decreases allowed@.len() - k,
    {
        if str_eq(allowed[k].as_str(), eff.as_str()) {
            return Ok(k);
        }
        k = k + 1;
    }
    let mut m = "invalid --format '".to_string();
    push_str(&mut m, eff.as_str());
    push_str(&mut m, "' (expected ");
    let ghost head = m@;
    let mut j: usize = 0;
    while j < allowed.len()
        invariant
            j <= allowed@.len(),
            m@ == head + crate::format::join_strs_seq(allowed@.take(j as int).map_values(|a: String| a@), "|"@),
        decreases allowed@.len() - j,
    {
        if j > 0 {
            push_str(&mut m, "|");
        }
        push_str(&mut m, allowed[j].as_str());
        proof {
            let a = allowed@.take(j + 1).map_values(|a: String| a@);
            assert(a.drop_last() =~= allowed@.take(j as int).map_values(|a: String| a@));
        }
        assert(m@ =~= head + crate::format::join_strs_seq(allowed@.take(j + 1).map_values(|a: String| a@), "|"@));
        j = j + 1;
    }
    assert(allowed@.take(allowed@.len() as int) =~= allowed@);
    push_str(&mut m, ")");
    Err(CliError::User(m))
}

/// The tasks with no unmet dependency, in their order (`list --unblocked`).
pub open spec fn unblocked_spec(s: Seq<Task>) -> Seq<Task>
    decreases s.len(),
{
    if s.len() == 0 {
        Seq::empty()
    } else {
        (if !s[0].blocked { seq![s[0]] } else { Seq::empty() }) + unblocked_spec(s.drop_first())
    }
}

/// `list --unblocked`: keeps the tasks with no unmet dependency, in order.
pub fn unblocked_only(tasks: Vec<Task>) -> (r: Vec<Task>)
    ensures
        r@ == unblocked_spec(tasks@),
{
    let ghost all = tasks@;
    let mut rest = tasks;
    let mut out: Vec<Task> = Vec::new();
    while rest.len() > 0
        invariant
            out@ + unblocked_spec(rest@) == unblocked_spec(all),
        decreases rest@.len(),
    {
        let ghost before = rest@;
        let t = rest.remove(0);
        assert(rest@ =~= before.drop_first());
        if !t.blocked {
            out.push(t);
            assert(out@ + unblocked_spec(rest@) =~= out@.drop_last() + unblocked_spec(before));
        } else {
            assert(out@ + unblocked_spec(rest@) =~= out@ + unblocked_spec(before));
        }
    }
    assert(out@ + unblocked_spec(rest@) =~= out@);
    out
}

} // verus!
