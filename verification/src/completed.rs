//! `export-completed`: the query of done tasks within the date bounds, and
//! their grouping by completion date, newest date first.
use vstd::prelude::*;
use crate::dates::{date_part, date_prefix, invalid_date_msg, parse_date_bound, rfc3339_utc_text, ymd_midnight_text};
use crate::error::{CliError, is_user_error};
use crate::listing::{since_bound, task_columns, task_columns_text};
use crate::strs::{opt_view, text_or_empty};
use crate::task::Task;
use crate::text::{i64_to_string, int_to_dec, lex_lt, nat_to_dec, push_str, str_eq, str_lt, u64_to_string};

verus! {

/// The query for done tasks, given the normalized bounds (inclusive
/// `since`, exclusive `until`), newest completion first.
pub open spec fn completed_sql(since: Option<Seq<char>>, until: Option<Seq<char>>) -> Seq<char> {
    "SELECT "@ + task_columns() + " FROM tasks WHERE status = 'done'"@
        + (match since { Some(_) => " AND completed_at >= ?1"@, None => Seq::empty() })
        + (match until {
            Some(_) => " AND completed_at < ?"@ + nat_to_dec(if since is Some { 2 } else { 1 }),
            None => Seq::empty(),
        })
        + " ORDER BY completed_at DESC, id DESC"@
}

pub open spec fn completed_params(since: Option<Seq<char>>, until: Option<Seq<char>>) -> Seq<Seq<char>> {
    (match since { Some(s) => seq![s], None => Seq::empty() }) + (match until { Some(u) => seq![u], None => Seq::empty() })
}

/// The query and parameters of `export-completed`. A bound that is neither
/// a date nor an RFC 3339 timestamp is an error (`--since` is read first).
pub fn completed_query(since: Option<&str>, until: Option<&str>) -> (r: Result<(String, Vec<String>), CliError>)
    ensures
        match (since, until) {
            (Some(s), _) if since_bound(Some(s@)) is None => r matches Err(e) && is_user_error(e, invalid_date_msg(s@)),
            (_, Some(u)) if (since matches Some(s) ==> since_bound(Some(s@)) is Some) && since_bound(Some(u@)) is None =>
                r matches Err(e) && is_user_error(e, invalid_date_msg(u@)),
            _ => r matches Ok((sql, params))
                && sql@ == completed_sql(since_bound(match since { Some(s) => Some(s@), None => None }), since_bound(match until { Some(u) => Some(u@), None => None }))
                && params@.map_values(|p: String| p@) == completed_params(
                    since_bound(match since { Some(s) => Some(s@), None => None }),
                    since_bound(match until { Some(u) => Some(u@), None => None })),
        },
{
    let sb: Option<String> = match since {
        Some(s) => match parse_date_bound(s) {
            Ok(v) => Some(v),
            Err(e) => { return Err(e); },
        },
        None => None,
    };
    let ub: Option<String> = match until {
        Some(u) => match parse_date_bound(u) {
            Ok(v) => Some(v),
            Err(e) => { return Err(e); },
        },
        None => None,
    };
    let ghost sv = opt_view(sb);
    let ghost uv = opt_view(ub);
    let mut sql = "SELECT ".to_string();
    push_str(&mut sql, task_columns_text());
    push_str(&mut sql, " FROM tasks WHERE status = 'done'");
    let mut params: Vec<String> = Vec::new();
    let ghost h = sql@;
    match sb {
        Some(b) => {
            push_str(&mut sql, " AND completed_at >= ?1");
            params.push(b);
        },
        None => {},
    }
    let ghost h2 = sql@;
    let ghost p1 = params@;
    match ub {
        Some(b) => {
            if params.len() == 0 {
                push_str(&mut sql, " AND completed_at < ?1");
                proof { reveal_strlit("1"); assert(nat_to_dec(1) =~= "1"@); }
            } else {
                push_str(&mut sql, " AND completed_at < ?2");
                proof { reveal_strlit("2"); assert(nat_to_dec(2) =~= "2"@); }
            }
            params.push(b);
        },
        None => {},
    }
    push_str(&mut sql, " ORDER BY completed_at DESC, id DESC");
    proof {
        assert(sql@ =~= completed_sql(sv, uv)) by {
            reveal_strlit(" AND completed_at < ?1");
            reveal_strlit(" AND completed_at < ?2");
            reveal_strlit(" AND completed_at < ?");
        }
        assert(params@.map_values(|p: String| p@) =~= completed_params(sv, uv));
    }
    Ok((sql, params))
}

/// The completion date of a task: the date part of `completed_at`, empty
/// when it is unset.
pub open spec fn completion_date(t: Task) -> Seq<char> {
    match opt_view(t.completed_at) {
        Some(c) => date_part(c),
        None => Seq::empty(),
    }
}

/// The tasks completed on one date, in their order.
#[derive(Debug)]
pub struct DateGroup {
    pub date: String,
    pub members: Vec<usize>,
}

/// The groups partition the tasks by completion date: dates strictly
/// descending, each group listing exactly the tasks of its date in order.
pub open spec fn groups_ok(tasks: Seq<Task>, groups: Seq<DateGroup>, n: int) -> bool {
    &&& forall|g: int, h: int| 0 <= g < h < groups.len() ==> lex_lt(#[trigger] groups[h].date@, #[trigger] groups[g].date@)
    &&& forall|g: int, i: int| 0 <= g < groups.len() && 0 <= i < groups[g].members@.len() ==>
        (#[trigger] groups[g].members@[i]) < n && completion_date(tasks[groups[g].members@[i] as int]) == groups[g].date@
    &&& forall|g: int, i: int, j: int| 0 <= g < groups.len() && 0 <= i < j < groups[g].members@.len() ==>
        #[trigger] groups[g].members@[i] < #[trigger] groups[g].members@[j]
    &&& forall|k: int| 0 <= k < n ==> #[trigger] covered(groups, k)
}

/// Some group lists task `k`.
pub open spec fn covered(groups: Seq<DateGroup>, k: int) -> bool {
    exists|g: int, i: int| 0 <= g < groups.len() && 0 <= i < groups[g].members@.len() && #[trigger] groups[g].members@[i] == k
}

fn completion_date_of(t: &Task) -> (r: String)
    ensures
        r@ == completion_date(*t),
{
    match &t.completed_at {
        Some(c) => date_prefix(c.as_str()),
        None => String::new(),
    }
}

/// Groups the tasks by completion date, newest date first; no group is
/// empty.
pub fn group_by_date(tasks: &Vec<Task>) -> (groups: Vec<DateGroup>)
    ensures
        groups_ok(tasks@, groups@, tasks@.len() as int),
        forall|g: int| 0 <= g < groups@.len() ==> (#[trigger] groups@[g]).members@.len() > 0,
{
    let mut groups: Vec<DateGroup> = Vec::new();
    let mut k: usize = 0;
    while k < tasks.len()
        invariant
            k <= tasks@.len(),
            groups_ok(tasks@, groups@, k as int),
            forall|g: int| 0 <= g < groups@.len() ==> (#[trigger] groups@[g]).members@.len() > 0,
        decreases tasks@.len() - k,
    {
        let d = completion_date_of(&tasks[k]);
        // the first group whose date is not after d
        let mut p: usize = 0;
        while p < groups.len() && str_lt(d.as_str(), groups[p].date.as_str())
            invariant
                p <= groups@.len(),
                forall|g: int| 0 <= g < p ==> lex_lt(d@, #[trigger] groups@[g].date@),
            decreases groups@.len() - p,
        {
            p = p + 1;
        }
        let ghost old_groups = groups@;
        if p < groups.len() && str_eq(d.as_str(), groups[p].date.as_str()) {
            let mut g = groups.remove(p);
            let ghost gm = g.members@;
            g.members.push(k);
            groups.insert(p, g);
            proof {
                assert(groups@ == old_groups.update(p as int, groups@[p as int]));
                assert(groups@[p as int].members@ == gm.push(k));
                assert(groups@[p as int].date@ == old_groups[p as int].date@);
                assert forall|g2: int, i: int| 0 <= g2 < groups@.len() && 0 <= i < groups@[g2].members@.len() implies
                    (#[trigger] groups@[g2].members@[i]) < k + 1 && completion_date(tasks@[groups@[g2].members@[i] as int]) == groups@[g2].date@ by {
                    if g2 != p && i < old_groups[g2].members@.len() {
                        assert(groups@[g2] == old_groups[g2]);
                    }
                    if g2 == p && i < gm.len() {
                        assert(groups@[g2].members@[i] == gm[i]);
                    }
                }
                assert forall|g2: int, i: int, j: int| 0 <= g2 < groups@.len() && 0 <= i < j < groups@[g2].members@.len() implies
                    #[trigger] groups@[g2].members@[i] < #[trigger] groups@[g2].members@[j] by {
                    if g2 != p {
                        assert(groups@[g2] == old_groups[g2]);
                    } else if j < gm.len() {
                        assert(groups@[g2].members@[i] == gm[i] && groups@[g2].members@[j] == gm[j]);
                    } else {
                        assert(groups@[g2].members@[i] == gm[i]);
                    }
                }
                assert forall|x: int| 0 <= x < k + 1 implies #[trigger] covered(groups@, x) by {
                    if x < k {
                        assert(covered(old_groups, x));
                        let (g2, i) = choose|g2: int, i: int| 0 <= g2 < old_groups.len() && 0 <= i < old_groups[g2].members@.len()
                            && #[trigger] old_groups[g2].members@[i] == x;
                        if g2 == p {
                            assert(groups@[g2].members@[i] == gm[i]);
                        } else {
                            assert(groups@[g2] == old_groups[g2]);
                        }
                        assert(groups@[g2].members@[i] == x);
                    } else {
                        assert(groups@[p as int].members@[gm.len() as int] == x);
                    }
                }
                assert forall|g2: int, h: int| 0 <= g2 < h < groups@.len() implies lex_lt(#[trigger] groups@[h].date@, #[trigger] groups@[g2].date@) by {
                    assert(groups@[h].date@ == old_groups[h].date@);
                    assert(groups@[g2].date@ == old_groups[g2].date@);
                }
            }
        } else {
            let mut members: Vec<usize> = Vec::new();
            members.push(k);
            let ghost dv = d@;
            groups.insert(p, DateGroup { date: d, members });
            proof {
                assert(groups@ == old_groups.insert(p as int, groups@[p as int]));
                // the groups from p on come before d
                assert forall|g2: int| p <= g2 < old_groups.len() implies lex_lt(#[trigger] old_groups[g2].date@, dv) by {
                    crate::text::lemma_lex_not_lt_both(dv, old_groups[p as int].date@);
                    if g2 > p {
                        crate::next_task::lemma_lex_lt_trans(old_groups[g2].date@, old_groups[p as int].date@, dv);
                    }
                }
                assert forall|g2: int, h: int| 0 <= g2 < h < groups@.len() implies lex_lt(#[trigger] groups@[h].date@, #[trigger] groups@[g2].date@) by {
                    if h < p {
                    } else if h == p {
                        assert(groups@[g2] == old_groups[g2]);
                    } else if g2 < p {
                        assert(groups@[g2] == old_groups[g2]);
                        assert(groups@[h] == old_groups[h - 1]);
                        crate::next_task::lemma_lex_lt_trans(old_groups[h - 1].date@, dv, old_groups[g2].date@);
                    } else if g2 == p {
                        assert(groups@[h] == old_groups[h - 1]);
                    } else {
                        assert(groups@[g2] == old_groups[g2 - 1]);
                        assert(groups@[h] == old_groups[h - 1]);
                    }
                }
                assert forall|g2: int, i: int| 0 <= g2 < groups@.len() && 0 <= i < groups@[g2].members@.len() implies
                    (#[trigger] groups@[g2].members@[i]) < k + 1 && completion_date(tasks@[groups@[g2].members@[i] as int]) == groups@[g2].date@ by {
                    if g2 < p {
                        assert(groups@[g2] == old_groups[g2]);
                    } else if g2 > p {
                        assert(groups@[g2] == old_groups[g2 - 1]);
                    }
                }
                assert forall|g2: int, i: int, j: int| 0 <= g2 < groups@.len() && 0 <= i < j < groups@[g2].members@.len() implies
                    #[trigger] groups@[g2].members@[i] < #[trigger] groups@[g2].members@[j] by {
                    if g2 < p {
                        assert(groups@[g2] == old_groups[g2]);
                    } else if g2 > p {
                        assert(groups@[g2] == old_groups[g2 - 1]);
                    }
                }
                assert forall|x: int| 0 <= x < k + 1 implies #[trigger] covered(groups@, x) by {
                    if x < k {
                        assert(covered(old_groups, x));
                        let (g2, i) = choose|g2: int, i: int| 0 <= g2 < old_groups.len() && 0 <= i < old_groups[g2].members@.len()
                            && #[trigger] old_groups[g2].members@[i] == x;
                        if g2 < p {
                            assert(groups@[g2] == old_groups[g2]);
                            assert(groups@[g2].members@[i] == x);
                        } else {
                            assert(groups@[g2 + 1] == old_groups[g2]);
                            assert(groups@[g2 + 1].members@[i] == x);
                        }
                    } else {
                        assert(groups@[p as int].members@[0] == x);
                    }
                }
                assert forall|g2: int| 0 <= g2 < groups@.len() implies (#[trigger] groups@[g2]).members@.len() > 0 by {
                    if g2 < p {
                        assert(groups@[g2] == old_groups[g2]);
                    } else if g2 > p {
                        assert(groups@[g2] == old_groups[g2 - 1]);
                    }
                }
            }
        }
        k = k + 1;
    }
    groups
}

/// One checklist line: `- [x] <id> <title>`.
pub open spec fn md_item(t: Task) -> Seq<char> {
    "- [x] "@ + int_to_dec(t.id as int) + " "@ + t.title@ + "\n"@
}

/// The checklist lines of the listed tasks, in order.
pub open spec fn md_items(tasks: Seq<Task>, members: Seq<usize>) -> Seq<char>
    decreases members.len(),
{
    if members.len() == 0 {
        Seq::empty()
    } else {
        md_items(tasks, members.drop_last()) + md_item(tasks[members.last() as int])
    }
}

/// One section per date: a `## <date>` heading, a blank line, the
/// checklist, a blank line.
pub open spec fn md_groups(tasks: Seq<Task>, groups: Seq<DateGroup>) -> Seq<char>
    decreases groups.len(),
{
    if groups.len() == 0 {
        Seq::empty()
    } else {
        md_groups(tasks, groups.drop_last()) + "## "@ + groups.last().date@ + "\n\n"@
            + md_items(tasks, groups.last().members@) + "\n"@
    }
}

fn push_md_items(out: &mut String, tasks: &Vec<Task>, members: &Vec<usize>)
    requires
        forall|i: int| 0 <= i < members@.len() ==> (#[trigger] members@[i]) < tasks@.len(),
    ensures
        final(out)@ == old(out)@ + md_items(tasks@, members@),
{
    let ghost start = out@;
    let mut i: usize = 0;
    while i < members.len()
        invariant
            i <= members@.len(),
            forall|k: int| 0 <= k < members@.len() ==> (#[trigger] members@[k]) < tasks@.len(),
            out@ == start + md_items(tasks@, members@.take(i as int)),
        decreases members@.len() - i,
    {
        let t = &tasks[members[i]];
        push_str(out, "- [x] ");
        let id = i64_to_string(t.id);
        push_str(out, id.as_str());
        push_str(out, " ");
        push_str(out, t.title.as_str());
        push_str(out, "\n");
        proof {
            assert(members@.take(i + 1).drop_last() =~= members@.take(i as int));
        }
        i = i + 1;
    }
    proof {
        assert(members@.take(i as int) =~= members@);
    }
}

/// The `export-completed --format markdown` text: the groups as sections,
/// newest date first, each a checklist of its tasks.
pub fn completed_markdown(tasks: &Vec<Task>, groups: &Vec<DateGroup>) -> (s: String)
    requires
        forall|g: int, i: int| 0 <= g < groups@.len() && 0 <= i < groups@[g].members@.len() ==>
            (#[trigger] groups@[g].members@[i]) < tasks@.len(),
    ensures
        s@ == md_groups(tasks@, groups@),
{
    let mut out = String::new();
    let mut g: usize = 0;
    while g < groups.len()
        invariant
            g <= groups@.len(),
            forall|h: int, i: int| 0 <= h < groups@.len() && 0 <= i < groups@[h].members@.len() ==>
                (#[trigger] groups@[h].members@[i]) < tasks@.len(),
            out@ == md_groups(tasks@, groups@.take(g as int)),
        decreases groups@.len() - g,
    {
        let grp = &groups[g];
        push_str(&mut out, "## ");
        push_str(&mut out, grp.date.as_str());
        push_str(&mut out, "\n\n");
        proof {
            assert forall|i: int| 0 <= i < grp.members@.len() implies (#[trigger] grp.members@[i]) < tasks@.len() by {
                assert(groups@[g as int].members@[i] == grp.members@[i]);
            }
        }
        push_md_items(&mut out, tasks, &grp.members);
        push_str(&mut out, "\n");
        proof {
            assert(groups@.take(g + 1).drop_last() =~= groups@.take(g as int));
        }
        g = g + 1;
    }
    proof {
        assert(groups@.take(g as int) =~= groups@);
    }
    out
}

} // verus!
