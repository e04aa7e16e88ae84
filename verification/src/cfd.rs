//! Cumulative flow: per bucket date, how many tasks were in the backlog, in
//! progress, done and rejected at the end of that day, reconstructed from
//! the `created_at`/`started_at`/`completed_at` timestamps alone.
use vstd::prelude::*;
use crate::dates::{date_only_spec, date_part, date_prefix, day_text, day_to_text, invalid_date_msg, parse_date_only};
use crate::error::{CliError, is_system_error, is_user_error};
use crate::strs::opt_view;
use crate::text::{i64_to_string, int_to_dec, lex_le, lex_lt, push_str, str_eq, str_le, str_lt};

verus! {

/// What the flow counts read of a task row.
#[derive(Debug)]
pub struct FlowRow {
    pub status: String,
    pub created_at: String,
    pub started_at: Option<String>,
    pub completed_at: Option<String>,
}

/// One bucket of the report.
#[derive(Debug)]
pub struct Bucket {
    pub date: String,
    pub backlog: i64,
    pub in_progress: i64,
    pub done: i64,
    pub rejected: i64,
}

/// `invalid --bucket '<b>' (expected day|week)`.
pub open spec fn invalid_bucket_msg(b: Seq<char>) -> Seq<char> {
    "invalid --bucket '"@ + b + "' (expected day|week)"@
}

/// The bucket width in days: `day` is 1, `week` is 7.
pub fn bucket_step(bucket: &str) -> (r: Result<i64, CliError>)
    ensures
        bucket@ == "day"@ ==> r == Ok::<i64, CliError>(1),
        bucket@ == "week"@ ==> r == Ok::<i64, CliError>(7),
        bucket@ != "day"@ && bucket@ != "week"@ ==> (r matches Err(e) && is_user_error(e, invalid_bucket_msg(bucket@))),
{
    proof {
        reveal_strlit("day");
        reveal_strlit("week");
        assert("week"@[0] != "day"@[0]);
    }
    if str_eq(bucket, "day") {
        Ok(1)
    } else if str_eq(bucket, "week") {
        Ok(7)
    } else {
        let mut m = "invalid --bucket '".to_string();
        push_str(&mut m, bucket);
        push_str(&mut m, "' (expected day|week)");
        Err(CliError::User(m))
    }
}

/// The bucket dates: `since`, `since + step`, ... while before `until`,
/// then `until` itself, even when the steps do not land on it.
pub open spec fn bucket_days_spec(since: int, until: int, step: int) -> Seq<int>
    decreases (if since < until { until - since } else { 0 }),
{
    if step >= 1 && since < until {
        seq![since] + bucket_days_spec(since + step, until, step)
    } else {
        seq![until]
    }
}

proof fn lemma_bucket_days_bounds(since: int, until: int, step: int)
    requires
        step >= 1,
        since <= until,
    ensures
        forall|k: int| 0 <= k < bucket_days_spec(since, until, step).len() ==>
            since <= #[trigger] bucket_days_spec(since, until, step)[k] <= until,
    decreases (if since < until { until - since } else { 0 }),
{
    if since < until {
        let rest = bucket_days_spec(since + step, until, step);
        if since + step <= until {
            lemma_bucket_days_bounds(since + step, until, step);
        } else {
            assert(rest == seq![until]);
        }
        assert forall|k: int| 0 <= k < bucket_days_spec(since, until, step).len() implies
            since <= #[trigger] bucket_days_spec(since, until, step)[k] <= until by {
            if k > 0 {
                assert(bucket_days_spec(since, until, step)[k] == rest[k - 1]);
            }
        }
    }
}

/// The bucket dates between two days.
pub fn bucket_days(since: i64, until: i64, step: i64) -> (r: Vec<i64>)
    requires
        1 <= step <= 7,
        since <= until,
        until <= i32::MAX,
    ensures
        r@.map_values(|d: i64| d as int) == bucket_days_spec(since as int, until as int, step as int),
{
    let mut out: Vec<i64> = Vec::new();
    let mut d = since;
    proof { lemma_bucket_days_bounds(since as int, until as int, step as int); }
    while d < until
        invariant
            1 <= step <= 7,
            since <= d,
            d <= until + 7,
            until <= i32::MAX,
            out@.map_values(|x: i64| x as int) + bucket_days_spec(d as int, until as int, step as int)
                == bucket_days_spec(since as int, until as int, step as int),
        decreases until + 7 - d,
    {
        let ghost before = out@;
        out.push(d);
        assert(out@.map_values(|x: i64| x as int) =~= before.map_values(|x: i64| x as int).push(d as int));
        assert(bucket_days_spec(d as int, until as int, step as int) == seq![d as int] + bucket_days_spec(d + step, until as int, step as int));
        assert(out@.map_values(|x: i64| x as int) + bucket_days_spec(d + step, until as int, step as int)
            =~= before.map_values(|x: i64| x as int) + bucket_days_spec(d as int, until as int, step as int));
        d = d + step;
    }
    let ghost before = out@;
    out.push(until);
    assert(bucket_days_spec(d as int, until as int, step as int) == seq![until as int]);
    assert(out@.map_values(|x: i64| x as int) =~= before.map_values(|x: i64| x as int).push(until as int));
    assert(out@.map_values(|x: i64| x as int) =~= bucket_days_spec(since as int, until as int, step as int));
    out
}

/// SQL `x IS NULL OR x > b` on text.
pub open spec fn unset_or_after(x: Option<Seq<char>>, b: Seq<char>) -> bool {
    match x {
        None => true,
        Some(v) => lex_lt(b, v),
    }
}

/// SQL `x IS NOT NULL AND x <= b` on text.
pub open spec fn set_and_by(x: Option<Seq<char>>, b: Seq<char>) -> bool {
    match x {
        None => false,
        Some(v) => lex_le(v, b),
    }
}

/// In the backlog at the boundary: created, not yet started, not yet closed.
pub open spec fn in_backlog(r: FlowRow, b: Seq<char>) -> bool {
    lex_le(r.created_at@, b) && unset_or_after(opt_view(r.started_at), b) && unset_or_after(opt_view(r.completed_at), b)
}

/// In progress at the boundary: started and not yet closed.
pub open spec fn in_flight(r: FlowRow, b: Seq<char>) -> bool {
    lex_le(r.created_at@, b) && set_and_by(opt_view(r.started_at), b) && unset_or_after(opt_view(r.completed_at), b)
}

/// Closed with the given status by the boundary.
pub open spec fn closed_as(r: FlowRow, b: Seq<char>, status: Seq<char>) -> bool {
    lex_le(r.created_at@, b) && set_and_by(opt_view(r.completed_at), b) && r.status@ == status
}

/// The four counts of the rows at a boundary.
pub open spec fn flow_counts_spec(rows: Seq<FlowRow>, b: Seq<char>) -> (int, int, int, int)
    decreases rows.len(),
{
    if rows.len() == 0 {
        (0, 0, 0, 0)
    } else {
        let (a, p, d, x) = flow_counts_spec(rows.drop_last(), b);
        let r = rows.last();
        (a + if in_backlog(r, b) { 1int } else { 0int },
         p + if in_flight(r, b) { 1int } else { 0int },
         d + if closed_as(r, b, "done"@) { 1int } else { 0int },
         x + if closed_as(r, b, "rejected"@) { 1int } else { 0int })
    }
}

proof fn lemma_counts_bounded(rows: Seq<FlowRow>, b: Seq<char>)
    ensures
        0 <= flow_counts_spec(rows, b).0 <= rows.len(),
        0 <= flow_counts_spec(rows, b).1 <= rows.len(),
        0 <= flow_counts_spec(rows, b).2 <= rows.len(),
        0 <= flow_counts_spec(rows, b).3 <= rows.len(),
    decreases rows.len(),
{
    if rows.len() > 0 {
        lemma_counts_bounded(rows.drop_last(), b);
    }
}

proof fn lemma_row_states_exclusive(r: FlowRow, b: Seq<char>)
    ensures
        (if in_backlog(r, b) { 1int } else { 0int }) + (if in_flight(r, b) { 1int } else { 0int })
            + (if closed_as(r, b, "done"@) { 1int } else { 0int }) + (if closed_as(r, b, "rejected"@) { 1int } else { 0int }) <= 1,
{
    reveal_strlit("done");
    reveal_strlit("rejected");
    assert("done"@[0] != "rejected"@[0]);
    match opt_view(r.started_at) {
        Some(v) => crate::text::lemma_lex_lt_asym(b, v),
        None => {},
    }
    match opt_view(r.completed_at) {
        Some(v) => crate::text::lemma_lex_lt_asym(b, v),
        None => {},
    }
}

/// At any boundary a task is in at most one of the four states (backlog,
/// in progress, done, rejected), so the four counts together never exceed
/// the number of tasks.
pub proof fn law_flow_states_exclusive(rows: Seq<FlowRow>, b: Seq<char>)
    ensures
        forall|i: int| 0 <= i < rows.len() ==>
            (if in_backlog(#[trigger] rows[i], b) { 1int } else { 0int }) + (if in_flight(rows[i], b) { 1int } else { 0int })
            + (if closed_as(rows[i], b, "done"@) { 1int } else { 0int })
            + (if closed_as(rows[i], b, "rejected"@) { 1int } else { 0int }) <= 1,
        flow_counts_spec(rows, b).0 + flow_counts_spec(rows, b).1 + flow_counts_spec(rows, b).2
            + flow_counts_spec(rows, b).3 <= rows.len(),
    decreases rows.len(),
{
    assert forall|i: int| 0 <= i < rows.len() implies
        (if in_backlog(#[trigger] rows[i], b) { 1int } else { 0int }) + (if in_flight(rows[i], b) { 1int } else { 0int })
        + (if closed_as(rows[i], b, "done"@) { 1int } else { 0int })
        + (if closed_as(rows[i], b, "rejected"@) { 1int } else { 0int }) <= 1 by {
        lemma_row_states_exclusive(rows[i], b);
    }
    if rows.len() > 0 {
        law_flow_states_exclusive(rows.drop_last(), b);
        lemma_row_states_exclusive(rows.last(), b);
    }
}

fn unset_or_after_exec(x: &Option<String>, b: &str) -> (r: bool)
    ensures
        r == unset_or_after(opt_view(*x), b@),
{
    match x {
        None => true,
        Some(v) => str_lt(b, v.as_str()),
    }
}

fn set_and_by_exec(x: &Option<String>, b: &str) -> (r: bool)
    ensures
        r == set_and_by(opt_view(*x), b@),
{
    match x {
        None => false,
        Some(v) => str_le(v.as_str(), b),
    }
}

/// Counts the rows in each state at the end-of-day boundary `b`.
pub fn flow_counts(rows: &Vec<FlowRow>, b: &str) -> (r: (i64, i64, i64, i64))
    requires
        rows@.len() <= i64::MAX,
    ensures
        r.0 as int == flow_counts_spec(rows@, b@).0,
        r.1 as int == flow_counts_spec(rows@, b@).1,
        r.2 as int == flow_counts_spec(rows@, b@).2,
        r.3 as int == flow_counts_spec(rows@, b@).3,
{
    let mut a: i64 = 0;
    let mut p: i64 = 0;
    let mut d: i64 = 0;
    let mut x: i64 = 0;
    let mut i: usize = 0;
    while i < rows.len()
        invariant
            i <= rows@.len(),
            rows@.len() <= i64::MAX,
            (a as int, p as int, d as int, x as int) == flow_counts_spec(rows@.take(i as int), b@),
        decreases rows@.len() - i,
    {
        let r = &rows[i];
        proof {
            assert(rows@.take(i + 1).drop_last() =~= rows@.take(i as int));
            lemma_counts_bounded(rows@.take(i as int), b@);
        }
        let created_ok = str_le(r.created_at.as_str(), b);
        if created_ok && unset_or_after_exec(&r.started_at, b) && unset_or_after_exec(&r.completed_at, b) {
            a = a + 1;
        }
        if created_ok && set_and_by_exec(&r.started_at, b) && unset_or_after_exec(&r.completed_at, b) {
            p = p + 1;
        }
        if created_ok && set_and_by_exec(&r.completed_at, b) && str_eq(r.status.as_str(), "done") {
            d = d + 1;
        }
        if created_ok && set_and_by_exec(&r.completed_at, b) && str_eq(r.status.as_str(), "rejected") {
            x = x + 1;
        }
        i = i + 1;
    }
    assert(rows@.take(rows@.len() as int) =~= rows@);
    (a, p, d, x)
}

/// `--since (<a>) must not be after --until (<b>)`.
pub open spec fn range_msg(a: Seq<char>, b: Seq<char>) -> Seq<char> {
    "--since ("@ + a + ") must not be after --until ("@ + b + ")"@
}

/// The end-of-day boundary of a date: `<date>T23:59:59Z`.
pub open spec fn day_end(date: Seq<char>) -> Seq<char> {
    date + "T23:59:59Z"@
}

/// Bucket `k` of the report holds the counts at the end of its date.
pub open spec fn bucket_ok(rows: Seq<FlowRow>, day: int, bk: Bucket) -> bool {
    &&& day_text(day) == Some(bk.date@)
    &&& bk.backlog as int == flow_counts_spec(rows, day_end(bk.date@)).0
    &&& bk.in_progress as int == flow_counts_spec(rows, day_end(bk.date@)).1
    &&& bk.done as int == flow_counts_spec(rows, day_end(bk.date@)).2
    &&& bk.rejected as int == flow_counts_spec(rows, day_end(bk.date@)).3
}

/// A time of day as the timestamps write it: `HH:MM:SSZ`, hours `00` to
/// `23`, minutes and seconds `00` to `59`.
pub open spec fn is_clock_time(t: Seq<char>) -> bool {
    &&& t.len() == 9
    &&& '0' <= t[0] <= '2'
    &&& '0' <= t[1] <= '9'
    &&& (t[0] == '2' ==> t[1] <= '3')
    &&& t[2] == ':'
    &&& '0' <= t[3] <= '5'
    &&& '0' <= t[4] <= '9'
    &&& t[5] == ':'
    &&& '0' <= t[6] <= '5'
    &&& '0' <= t[7] <= '9'
    &&& t[8] == 'Z'
}

/// Two texts that agree before position `k` and differ there are ordered
/// by the characters at `k`.
proof fn lemma_lex_first_difference(a: Seq<char>, b: Seq<char>, k: int)
    requires
        0 <= k < a.len(),
        k < b.len(),
        forall|j: int| 0 <= j < k ==> a[j] == b[j],
        a[k] < b[k],
    ensures
        lex_lt(a, b),
    decreases k,
{
    if k > 0 {
        assert forall|j: int| 0 <= j < k - 1 implies a.drop_first()[j] == b.drop_first()[j] by {
            assert(a[j + 1] == b[j + 1]);
        }
        lemma_lex_first_difference(a.drop_first(), b.drop_first(), k - 1);
        assert(a[0] == b[0]);
    }
}

/// A common prefix does not change the order of two texts.
proof fn lemma_lex_le_common_prefix(p: Seq<char>, a: Seq<char>, b: Seq<char>)
    requires
        lex_le(a, b),
    ensures
        lex_le(p + a, p + b),
    decreases p.len(),
{
    if p.len() > 0 {
        lemma_lex_le_common_prefix(p.drop_first(), a, b);
        assert((p + a).drop_first() =~= p.drop_first() + a);
        assert((p + b).drop_first() =~= p.drop_first() + b);
        if p.drop_first() + a == p.drop_first() + b {
            assert(p + a =~= seq![p[0]] + (p.drop_first() + a));
            assert(p + b =~= seq![p[0]] + (p.drop_first() + b));
        }
    } else {
        assert(p + a =~= a);
        assert(p + b =~= b);
    }
}

/// Every time of day is at or before the last second of the day.
proof fn lemma_clock_time_by_day_end(t: Seq<char>)
    requires
        is_clock_time(t),
    ensures
        lex_le(t, "23:59:59Z"@),
{
    reveal_strlit("23:59:59Z");
    let e = "23:59:59Z"@;
    assert(e.len() == 9);
    if t[0] != '2' {
        lemma_lex_first_difference(t, e, 0);
    } else if t[1] != '3' {
        lemma_lex_first_difference(t, e, 1);
    } else if t[3] != '5' {
        lemma_lex_first_difference(t, e, 3);
    } else if t[4] != '9' {
        lemma_lex_first_difference(t, e, 4);
    } else if t[6] != '5' {
        lemma_lex_first_difference(t, e, 6);
    } else if t[7] != '9' {
        lemma_lex_first_difference(t, e, 7);
    } else {
        assert(t =~= e);
    }
}

/// A row in one of the four states at a boundary is counted there.
proof fn lemma_state_is_counted(rows: Seq<FlowRow>, b: Seq<char>, i: int)
    requires
        0 <= i < rows.len(),
        in_backlog(rows[i], b) || in_flight(rows[i], b) || closed_as(rows[i], b, "done"@)
            || closed_as(rows[i], b, "rejected"@),
    ensures
        flow_counts_spec(rows, b).0 + flow_counts_spec(rows, b).1 + flow_counts_spec(rows, b).2
            + flow_counts_spec(rows, b).3 >= 1,
    decreases rows.len(),
{
    lemma_counts_bounded(rows.drop_last(), b);
    if i < rows.len() - 1 {
        assert(rows.drop_last()[i] == rows[i]);
        lemma_state_is_counted(rows.drop_last(), b, i);
    }
}

/// A task created at any time of day on a bucket's date is counted in that
/// bucket, in one of the four states, provided a closed task carries the
/// status `done` or `rejected`: a bucket reflects the state at the end of
/// its own day, everything that day included.
pub proof fn law_bucket_counts_tasks_created_that_day(rows: Seq<FlowRow>, day: int, bk: Bucket, i: int, t: Seq<char>)
    requires
        bucket_ok(rows, day, bk),
        0 <= i < rows.len(),
        rows[i].created_at@ == bk.date@ + seq!['T'] + t,
        is_clock_time(t),
        rows[i].completed_at is Some ==> rows[i].status@ == "done"@ || rows[i].status@ == "rejected"@,
    ensures
        bk.backlog + bk.in_progress + bk.done + bk.rejected >= 1,
{
    reveal_strlit("T23:59:59Z");
    reveal_strlit("23:59:59Z");
    let b = day_end(bk.date@);
    let p = bk.date@ + seq!['T'];
    lemma_clock_time_by_day_end(t);
    lemma_lex_le_common_prefix(p, t, "23:59:59Z"@);
    assert(p + "23:59:59Z"@ =~= b);
    assert(p + t =~= rows[i].created_at@);
    let r = rows[i];
    match opt_view(r.started_at) {
        Some(v) => crate::text::lemma_lex_not_lt_both(b, v),
        None => {},
    }
    match opt_view(r.completed_at) {
        Some(v) => crate::text::lemma_lex_not_lt_both(b, v),
        None => {},
    }
    lemma_state_is_counted(rows, b, i);
}

fn day_string(d: i64) -> (r: Result<String, CliError>)
    requires
        i32::MIN <= d <= i32::MAX,
    ensures
        match r {
            Ok(s) => day_text(d as int) == Some(s@),
            Err(e) => day_text(d as int) is None && is_system_error(e, "date out of range"@),
        },
{
    match day_to_text(d as i32) {
        Some(s) => Ok(s),
        None => Err(CliError::System("date out of range".to_string())),
    }
}

/// The cumulative-flow buckets from day `since` to day `until`, `step` days
/// apart. `since` after `until` is an error.
pub fn cfd_buckets(rows: &Vec<FlowRow>, since: i64, until: i64, step: i64) -> (r: Result<Vec<Bucket>, CliError>)
    requires
        1 <= step <= 7,
        i32::MIN <= since <= i32::MAX,
        i32::MIN <= until <= i32::MAX,
        rows@.len() <= i64::MAX,
    ensures
        since > until ==> match (day_text(since as int), day_text(until as int)) {
            (Some(a), Some(b)) => r matches Err(e) && is_user_error(e, range_msg(a, b)),
            _ => r matches Err(e) && is_system_error(e, "date out of range"@),
        },
        since <= until ==> match r {
            Ok(v) => v@.len() == bucket_days_spec(since as int, until as int, step as int).len()
                && forall|k: int| 0 <= k < v@.len() ==> #[trigger] bucket_ok(rows@, bucket_days_spec(since as int, until as int, step as int)[k], v@[k]),
            Err(e) => is_system_error(e, "date out of range"@)
                && exists|k: int| 0 <= k < bucket_days_spec(since as int, until as int, step as int).len()
                && day_text(#[trigger] bucket_days_spec(since as int, until as int, step as int)[k]) is None,
        },
{
    if since > until {
        let a = day_string(since)?;
        let b = day_string(until)?;
        let mut m = "--since (".to_string();
        push_str(&mut m, a.as_str());
        push_str(&mut m, ") must not be after --until (");
        push_str(&mut m, b.as_str());
        push_str(&mut m, ")");
        return Err(CliError::User(m));
    }
    let days = bucket_days(since, until, step);
    let ghost spec_days = bucket_days_spec(since as int, until as int, step as int);
    proof { lemma_bucket_days_bounds(since as int, until as int, step as int); }
    assert(days@.len() == spec_days.len()) by {
        assert(days@.map_values(|d: i64| d as int).len() == days@.len());
    }
    let mut out: Vec<Bucket> = Vec::new();
    let mut k: usize = 0;
    while k < days.len()
        invariant
            k <= days@.len(),
            spec_days == bucket_days_spec(since as int, until as int, step as int),
            days@.len() == spec_days.len(),
            days@.map_values(|d: i64| d as int) == spec_days,
            forall|j: int| 0 <= j < spec_days.len() ==> since <= #[trigger] spec_days[j] <= until,
            i32::MIN <= since,
            until <= i32::MAX,
            rows@.len() <= i64::MAX,
            out@.len() == k,
            forall|j: int| 0 <= j < k ==> #[trigger] bucket_ok(rows@, spec_days[j], out@[j]),
        decreases days@.len() - k,
    {
        let d = days[k];
        assert(spec_days[k as int] == d as int) by {
            assert(days@.map_values(|x: i64| x as int)[k as int] == days@[k as int] as int);
        }
        let date = match day_string(d) {
            Ok(s) => s,
            Err(e) => {
                assert(day_text(spec_days[k as int]) is None);
                assert(0 <= k < bucket_days_spec(since as int, until as int, step as int).len());
                assert(day_text(bucket_days_spec(since as int, until as int, step as int)[k as int]) is None);
                return Err(e);
            },
        };
        let mut boundary = date.clone();
        push_str(&mut boundary, "T23:59:59Z");
        let (a, p, dn, x) = flow_counts(rows, boundary.as_str());
        let bk = Bucket { date, backlog: a, in_progress: p, done: dn, rejected: x };
        assert(bucket_ok(rows@, spec_days[k as int], bk));
        out.push(bk);
        k = k + 1;
    }
    Ok(out)
}

/// `<date>  backlog=<n>  in_progress=<n>  done=<n>  rejected=<n>` and a newline.
pub open spec fn ascii_line(b: Bucket) -> Seq<char> {
    b.date@ + "  backlog="@ + int_to_dec(b.backlog as int) + "  in_progress="@ + int_to_dec(b.in_progress as int)
        + "  done="@ + int_to_dec(b.done as int) + "  rejected="@ + int_to_dec(b.rejected as int) + "\n"@
}

/// `<date>,<backlog>,<in_progress>,<done>,<rejected>` and a newline.
pub open spec fn csv_line(b: Bucket) -> Seq<char> {
    b.date@ + ","@ + int_to_dec(b.backlog as int) + ","@ + int_to_dec(b.in_progress as int)
        + ","@ + int_to_dec(b.done as int) + ","@ + int_to_dec(b.rejected as int) + "\n"@
}

pub open spec fn lines_of(bs: Seq<Bucket>, csv: bool) -> Seq<char>
    decreases bs.len(),
{
    if bs.len() == 0 {
        Seq::empty()
    } else {
        lines_of(bs.drop_last(), csv) + if csv { csv_line(bs.last()) } else { ascii_line(bs.last()) }
    }
}

fn push_num(out: &mut String, n: i64)
    ensures
        final(out)@ == old(out)@ + int_to_dec(n as int),
{
    let s = i64_to_string(n);
    push_str(out, s.as_str());
}

fn bucket_line(b: &Bucket, csv: bool) -> (s: String)
    ensures
        s@ == if csv { csv_line(*b) } else { ascii_line(*b) },
{
    let mut out = b.date.clone();
    if csv {
        push_str(&mut out, ",");
        push_num(&mut out, b.backlog);
        push_str(&mut out, ",");
        push_num(&mut out, b.in_progress);
        push_str(&mut out, ",");
        push_num(&mut out, b.done);
        push_str(&mut out, ",");
        push_num(&mut out, b.rejected);
        push_str(&mut out, "\n");
        assert(out@ =~= csv_line(*b));
    } else {
        push_str(&mut out, "  backlog=");
        push_num(&mut out, b.backlog);
        push_str(&mut out, "  in_progress=");
        push_num(&mut out, b.in_progress);
        push_str(&mut out, "  done=");
        push_num(&mut out, b.done);
        push_str(&mut out, "  rejected=");
        push_num(&mut out, b.rejected);
        push_str(&mut out, "\n");
        assert(out@ =~= ascii_line(*b));
    }
    out
}

/// The report as text: one line per bucket, and for CSV a header line first.
pub fn render_buckets(bs: &Vec<Bucket>, csv: bool) -> (s: String)
    ensures
        s@ == (if csv { "date,backlog,in_progress,done,rejected\n"@ } else { ""@ }) + lines_of(bs@, csv),
{
    let mut out = if csv { "date,backlog,in_progress,done,rejected\n".to_string() } else { "".to_string() };
    let ghost head = out@;
    let mut i: usize = 0;
    while i < bs.len()
        invariant
            i <= bs@.len(),
            out@ == head + lines_of(bs@.take(i as int), csv),
        decreases bs@.len() - i,
    {
        let l = bucket_line(&bs[i], csv);
        push_str(&mut out, l.as_str());
        assert(bs@.take(i + 1).drop_last() =~= bs@.take(i as int));
        assert(out@ =~= head + lines_of(bs@.take(i + 1), csv));
        i = i + 1;
    }
    assert(bs@.take(bs@.len() as int) =~= bs@);
    out
}

/// The text the first bucket day is read from: `--since` when given, else
/// the date part of the earliest creation time, if there is a task.
pub open spec fn since_text(since: Option<Seq<char>>, earliest_created: Option<Seq<char>>) -> Option<Seq<char>> {
    match since {
        Some(s) => Some(s),
        None => match earliest_created {
            Some(e) => Some(date_part(e)),
            None => None,
        },
    }
}

/// A bound day read from `text`, or `today` when there is no text.
pub open spec fn bound_day_ok(r: Result<i64, CliError>, text: Option<Seq<char>>, today: i64) -> bool {
    match text {
        Some(t) => match date_only_spec(t) {
            Some(d) => r matches Ok(v) && v == d,
            None => r matches Err(e) && is_user_error(e, invalid_date_msg(t)),
        },
        None => r == Ok::<i64, CliError>(today),
    }
}

/// The first bucket day of `cfd`: `--since`; by default the day of the
/// earliest `created_at`; with no task at all, today.
pub fn cfd_since_day(since: Option<&str>, earliest_created: Option<&str>, today: i64) -> (r: Result<i64, CliError>)
    ensures
        bound_day_ok(r, since_text(match since { Some(s) => Some(s@), None => None },
            match earliest_created { Some(e) => Some(e@), None => None }), today),
{
    match since {
        Some(s) => parse_date_only(s),
        None => match earliest_created {
            Some(e) => {
                let d = date_prefix(e);
                parse_date_only(d.as_str())
            },
            None => Ok(today),
        },
    }
}

/// The last bucket day of `cfd`: `--until`, by default today.
pub fn cfd_until_day(until: Option<&str>, today: i64) -> (r: Result<i64, CliError>)
    ensures
        bound_day_ok(r, match until { Some(u) => Some(u@), None => None }, today),
{
    match until {
        Some(u) => parse_date_only(u),
        None => Ok(today),
    }
}

} // verus!
