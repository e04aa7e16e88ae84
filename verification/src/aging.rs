//! `aging`: open tasks oldest first, each with its age in whole days and
//! whether it is stale. Gates are never stale: staying open is what a gate
//! is for.
use vstd::prelude::*;
use crate::format::{join_strs, pad_left, pad_right, spaces};
use crate::dates::rfc3339_utc_text;
use crate::text::{i64_to_string, int_to_dec, lex_le, push_char, push_str};

verus! {

/// Whole days from `created` to `now` (both RFC 3339) as chrono counts them
/// (`(now - created).num_days()`), if chrono reads both.
pub uninterp spec fn whole_days_between(created: Seq<char>, now: Seq<char>) -> Option<int>;

/// A timestamp that chrono reads as RFC 3339 and renders back unchanged in
/// UTC at second precision (`YYYY-MM-DDTHH:MM:SSZ`, the four-digit year
/// being all that the RFC 3339 parser reads). Such texts sort by their
/// characters exactly as the instants they name sort in time.
pub open spec fn is_utc_timestamp(s: Seq<char>) -> bool {
    rfc3339_utc_text(s) == Some(s)
}

/// `(DateTime::parse_from_rfc3339(now) - DateTime::parse_from_rfc3339(created)).num_days()`.
/// Claimed of chrono: a result comes exactly when both texts parse (the
/// subtraction and `num_days` always succeed); `num_days` truncates toward
/// zero, so the count has the sign of `now - created`, which for texts in
/// the UTC form above follows their character order. The count itself is
/// left to the name `whole_days_between`.
#[verifier::external_body]
fn days_between(created: &str, now: &str) -> (r: Option<i64>)
    ensures
        match r {
            Some(d) => whole_days_between(created@, now@) == Some(d as int),
            None => whole_days_between(created@, now@) is None,
        },
        r is Some <==> (rfc3339_utc_text(created@) is Some && rfc3339_utc_text(now@) is Some),
        is_utc_timestamp(created@) && is_utc_timestamp(now@) && lex_le(created@, now@) ==> match r { Some(d) => d >= 0, None => false },
        is_utc_timestamp(created@) && is_utc_timestamp(now@) && lex_le(now@, created@) ==> match r { Some(d) => d <= 0, None => false },
{
    match (chrono::DateTime::parse_from_rfc3339(created), chrono::DateTime::parse_from_rfc3339(now)) {
        (Ok(c), Ok(n)) => Some((n - c).num_days()),
        _ => None,
    }
}

/// The age of a task: whole days since creation; a timestamp chrono cannot
/// read ages as 0 rather than failing the report.
pub open spec fn age_spec(created: Seq<char>, now: Seq<char>) -> int {
    match whole_days_between(created, now) {
        Some(d) => d,
        None => 0,
    }
}

/// The age in whole days of a task created at `created`, at `now`: never
/// negative for a task created no later than now, and 0 when both are the
/// same instant.
pub fn age_in_days(created: &str, now: &str) -> (r: i64)
    ensures
        r as int == age_spec(created@, now@),
        is_utc_timestamp(created@) && is_utc_timestamp(now@) ==> whole_days_between(created@, now@) is Some,
        is_utc_timestamp(created@) && is_utc_timestamp(now@) && lex_le(created@, now@) ==> r >= 0,
        is_utc_timestamp(created@) && is_utc_timestamp(now@) && lex_le(now@, created@) ==> r <= 0,
        is_utc_timestamp(created@) && created@ == now@ ==> r == 0,
{
    match days_between(created, now) {
        Some(d) => d,
        None => 0,
    }
}

/// A task is stale when a threshold is given, it is not a gate, and its age
/// reaches the threshold.
pub open spec fn stale_spec(age: i64, is_gate: bool, stale_days: Option<i64>) -> bool {
    match stale_days {
        Some(n) => !is_gate && age >= n,
        None => false,
    }
}

pub fn is_stale(age: i64, is_gate: bool, stale_days: Option<i64>) -> (r: bool)
    ensures
        r == stale_spec(age, is_gate, stale_days),
{
    match stale_days {
        Some(n) => !is_gate && age >= n,
        None => false,
    }
}

/// One row of the report.
#[derive(Debug)]
pub struct AgingRow {
    pub id: i64,
    pub title: String,
    pub status: String,
    pub priority: i64,
    pub tags: Vec<String>,
    pub created_at: String,
    pub is_gate: bool,
    pub age_days: i64,
    pub stale: bool,
}

/// Row `a` comes before row `b`: older first, then higher priority
/// (smaller number) first, then the earlier row (the sort is stable).
pub open spec fn aging_before(rows: Seq<AgingRow>, a: int, b: int) -> bool {
    rows[a].age_days > rows[b].age_days
        || (rows[a].age_days == rows[b].age_days && (rows[a].priority < rows[b].priority
            || (rows[a].priority == rows[b].priority && a < b)))
}

/// `order` lists every row once, in report order.
pub open spec fn is_aging_order(rows: Seq<AgingRow>, order: Seq<usize>) -> bool {
    &&& order.len() == rows.len()
    &&& forall|k: int| 0 <= k < order.len() ==> #[trigger] order[k] < rows.len()
    &&& forall|i: int, j: int| 0 <= i < j < order.len() ==> aging_before(rows, #[trigger] order[i] as int, #[trigger] order[j] as int)
}

proof fn lemma_before_trans(rows: Seq<AgingRow>, a: int, b: int, c: int)
    requires
        aging_before(rows, a, b),
        aging_before(rows, b, c),
    ensures
        aging_before(rows, a, c),
{
}

fn before(rows: &Vec<AgingRow>, a: usize, b: usize) -> (r: bool)
    requires
        a < rows@.len(),
        b < rows@.len(),
    ensures
        r == aging_before(rows@, a as int, b as int),
{
    rows[a].age_days > rows[b].age_days
        || (rows[a].age_days == rows[b].age_days && (rows[a].priority < rows[b].priority
            || (rows[a].priority == rows[b].priority && a < b)))
}

/// The report order: by age descending, then priority ascending, ties in
/// their input order. The order is a permutation of the rows.
pub fn aging_order(rows: &Vec<AgingRow>) -> (order: Vec<usize>)
    ensures
        is_aging_order(rows@, order@),
{
    let mut order: Vec<usize> = Vec::new();
    let mut k: usize = 0;
    while k < rows.len()
        invariant
            k <= rows@.len(),
            order@.len() == k,
            forall|x: int| 0 <= x < order@.len() ==> #[trigger] order@[x] < k,
            forall|i: int, j: int| 0 <= i < j < order@.len() ==> aging_before(rows@, #[trigger] order@[i] as int, #[trigger] order@[j] as int),
        decreases rows@.len() - k,
    {
        // first position whose row must come after row k
        let mut p: usize = 0;
        while p < order.len() && before(rows, order[p], k)
            invariant
                k < rows@.len(),
                p <= order@.len(),
                forall|x: int| 0 <= x < order@.len() ==> #[trigger] order@[x] < k,
                forall|x: int| 0 <= x < p ==> aging_before(rows@, #[trigger] order@[x] as int, k as int),
            decreases order@.len() - p,
        {
            p = p + 1;
        }
        proof {
            // everything from p on comes after row k
            assert forall|x: int| p <= x < order@.len() implies aging_before(rows@, k as int, #[trigger] order@[x] as int) by {
                if x > p {
                    assert(aging_before(rows@, order@[p as int] as int, order@[x] as int));
                }
                let o = order@[p as int] as int;
                assert(!aging_before(rows@, o, k as int) || p == order@.len());
                if !aging_before(rows@, k as int, order@[x] as int) {
                    // then order[x] is before k: contradiction with order[p] not before k
                    assert(aging_before(rows@, order@[x] as int, k as int) || order@[x] as int == k as int);
                    if x > p {
                        lemma_before_trans(rows@, o, order@[x] as int, k as int);
                    }
                }
            }
        }
        let ghost old_order = order@;
        order.insert(p, k);
        proof {
            assert(order@ == old_order.insert(p as int, k));
            assert forall|i: int, j: int| 0 <= i < j < order@.len() implies aging_before(rows@, #[trigger] order@[i] as int, #[trigger] order@[j] as int) by {
                if j < p {
                    assert(order@[i] == old_order[i] && order@[j] == old_order[j]);
                } else if j == p {
                    assert(order@[i] == old_order[i]);
                } else if i < p {
                    assert(order@[i] == old_order[i] && order@[j] == old_order[j - 1]);
                    assert(aging_before(rows@, old_order[i] as int, k as int));
                    assert(aging_before(rows@, k as int, old_order[j - 1] as int));
                    lemma_before_trans(rows@, old_order[i] as int, k as int, old_order[j - 1] as int);
                } else if i == p {
                    assert(order@[j] == old_order[j - 1]);
                } else {
                    assert(order@[i] == old_order[i - 1] && order@[j] == old_order[j - 1]);
                }
            }
            assert forall|x: int| 0 <= x < order@.len() implies #[trigger] order@[x] < k + 1 by {
                if x < p { assert(order@[x] == old_order[x]); } else if x > p { assert(order@[x] == old_order[x - 1]); }
            }
        }
        k = k + 1;
    }
    order
}

/// A report row as text: id (width 4), status (width 11), priority, age
/// (width 4), the title, ` [tags]` and ` [STALE]`.
pub open spec fn aging_line(r: AgingRow) -> Seq<char> {
    pad_left(int_to_dec(r.id as int), 4) + "  "@ + pad_right(r.status@, 11) + "  P"@ + int_to_dec(r.priority as int)
        + "  age="@ + pad_left(int_to_dec(r.age_days as int), 4) + "d  "@ + r.title@
        + (if r.tags@.len() > 0 { " ["@ + join_strs(r.tags@, ","@) + "]"@ } else { Seq::empty() })
        + (if r.stale { " [STALE]"@ } else { Seq::empty() })
        + "\n"@
}

fn push_spaces(out: &mut String, n: usize)
    ensures
        final(out)@ == old(out)@ + spaces(n as int),
{
    let ghost start = out@;
    let mut i: usize = 0;
    while i < n
        invariant
            i <= n,
            out@ == start + spaces(i as int),
        decreases n - i,
    {
        push_char(out, ' ');
        assert(out@ =~= start + spaces(i + 1));
        i = i + 1;
    }
}

fn push_padded_left(out: &mut String, s: &str, w: usize)
    ensures
        final(out)@ == old(out)@ + pad_left(s@, w as int),
{
    let n = s.unicode_len();
    if n < w {
        push_spaces(out, w - n);
    } else {
        assert(spaces(w - n) =~= Seq::<char>::empty());
        push_spaces(out, 0);
    }
    push_str(out, s);
    assert(final(out)@ =~= old(out)@ + pad_left(s@, w as int));
}

fn push_padded_right(out: &mut String, s: &str, w: usize)
    ensures
        final(out)@ == old(out)@ + pad_right(s@, w as int),
{
    push_str(out, s);
    let n = s.unicode_len();
    if n < w {
        push_spaces(out, w - n);
    } else {
        assert(spaces(w - n) =~= Seq::<char>::empty());
        push_spaces(out, 0);
    }
    assert(final(out)@ =~= old(out)@ + pad_right(s@, w as int));
}

fn push_head(out: &mut String, r: &AgingRow)
    ensures
        final(out)@ == old(out)@ + pad_left(int_to_dec(r.id as int), 4) + "  "@ + pad_right(r.status@, 11) + "  P"@
            + int_to_dec(r.priority as int) + "  age="@ + pad_left(int_to_dec(r.age_days as int), 4) + "d  "@ + r.title@,
{
    let id = i64_to_string(r.id);
    push_padded_left(out, id.as_str(), 4);
    push_str(out, "  ");
    push_padded_right(out, r.status.as_str(), 11);
    push_str(out, "  P");
    let p = i64_to_string(r.priority);
    push_str(out, p.as_str());
    push_str(out, "  age=");
    let a = i64_to_string(r.age_days);
    push_padded_left(out, a.as_str(), 4);
    push_str(out, "d  ");
    push_str(out, r.title.as_str());
    assert(final(out)@ =~= old(out)@ + pad_left(int_to_dec(r.id as int), 4) + "  "@ + pad_right(r.status@, 11) + "  P"@
        + int_to_dec(r.priority as int) + "  age="@ + pad_left(int_to_dec(r.age_days as int), 4) + "d  "@ + r.title@);
}

/// One line of the text report.
pub fn aging_text(r: &AgingRow) -> (s: String)
    ensures
        s@ == aging_line(*r),
{
    let mut out = String::new();
    push_head(&mut out, r);
    let ghost h = out@;
    if r.tags.len() > 0 {
        push_str(&mut out, " [");
        let mut j: usize = 0;
        let ghost t0 = out@;
        while j < r.tags.len()
            invariant
                j <= r.tags@.len(),
                out@ == t0 + join_strs(r.tags@.take(j as int), ","@),
            decreases r.tags@.len() - j,
        {
            if j > 0 {
                push_str(&mut out, ",");
            }
            push_str(&mut out, r.tags[j].as_str());
            assert(r.tags@.take(j + 1).drop_last() =~= r.tags@.take(j as int));
            assert(out@ =~= t0 + join_strs(r.tags@.take(j + 1), ","@));
            j = j + 1;
        }
        assert(r.tags@.take(r.tags@.len() as int) =~= r.tags@);
        push_str(&mut out, "]");
    }
    let ghost t = out@;
    if r.stale {
        push_str(&mut out, " [STALE]");
    }
    push_str(&mut out, "\n");
    assert(out@ =~= aging_line(*r));
    out
}

} // verus!
