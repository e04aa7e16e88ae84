//! The `doctor` report: the conditions never expected in a healthy
//! database (plus duplicate display ids, expected now and then after a
//! merge), whether the report is clean, and its text rendering.
use vstd::prelude::*;
use crate::error::{CliError, is_user_error};
use crate::strgraph::{has_link, Link};
use crate::text::{i64_to_string, int_to_dec, nat_to_dec, push_str, str_eq, u64_to_string};

verus! {

/// A task named in the report.
#[derive(Debug, Clone)]
pub struct TaskRef {
    pub id: i64,
    pub uuid: String,
    pub title: String,
}

/// A display id held by more than one task.
#[derive(Debug)]
pub struct DuplicateId {
    pub id: i64,
    pub tasks: Vec<TaskRef>,
}

/// What `doctor` found.
#[derive(Debug)]
pub struct DoctorReport {
    pub duplicate_display_ids: Vec<DuplicateId>,
    pub unresolved_merge_conflicts: Vec<TaskRef>,
    pub orphaned_tag_rows: i64,
    pub orphaned_dep_rows: i64,
    pub self_deps: i64,
    pub orphaned_related_rows: i64,
    pub asymmetric_related_rows: i64,
    pub dependency_cycles: Vec<TaskRef>,
}

impl DoctorReport {
    /// Nothing to report.
    pub open spec fn spec_is_clean(&self) -> bool {
        self.duplicate_display_ids@.len() == 0
            && self.unresolved_merge_conflicts@.len() == 0
            && self.orphaned_tag_rows == 0
            && self.orphaned_dep_rows == 0
            && self.self_deps == 0
            && self.orphaned_related_rows == 0
            && self.asymmetric_related_rows == 0
            && self.dependency_cycles@.len() == 0
    }

    /// An empty report.
    pub fn new() -> (r: DoctorReport)
        ensures
            r.spec_is_clean(),
    {
        DoctorReport {
            duplicate_display_ids: Vec::new(),
            unresolved_merge_conflicts: Vec::new(),
            orphaned_tag_rows: 0,
            orphaned_dep_rows: 0,
            self_deps: 0,
            orphaned_related_rows: 0,
            asymmetric_related_rows: 0,
            dependency_cycles: Vec::new(),
        }
    }

    pub fn is_clean(&self) -> (r: bool)
        ensures
            r == self.spec_is_clean(),
    {
        self.duplicate_display_ids.len() == 0
            && self.unresolved_merge_conflicts.len() == 0
            && self.orphaned_tag_rows == 0
            && self.orphaned_dep_rows == 0
            && self.self_deps == 0
            && self.orphaned_related_rows == 0
            && self.asymmetric_related_rows == 0
            && self.dependency_cycles.len() == 0
    }
}

/// The outcome of `doctor`: success only on a clean report, so that it can
/// gate a script.
pub fn doctor_verdict(report: &DoctorReport) -> (r: Result<(), CliError>)
    ensures
        r is Ok <==> report.spec_is_clean(),
        r matches Err(e) ==> is_user_error(e, "doctor found issues — see above (exit 1 so this can gate a script)"@),
{
    if report.is_clean() {
        Ok(())
    } else {
        Err(CliError::User("doctor found issues — see above (exit 1 so this can gate a script)".to_string()))
    }
}

/// `  id=<id> uuid=<uuid> title=<title>` and a newline.
pub open spec fn ref_line(t: TaskRef) -> Seq<char> {
    "  id="@ + int_to_dec(t.id as int) + " uuid="@ + t.uuid@ + " title="@ + t.title@ + "\n"@
}

/// One line per task.
pub open spec fn refs_text(s: Seq<TaskRef>) -> Seq<char>
    decreases s.len(),
{
    if s.len() == 0 {
        Seq::empty()
    } else {
        refs_text(s.drop_last()) + ref_line(s.last())
    }
}

/// The lines of every task of every duplicated id, in order.
pub open spec fn dups_text(s: Seq<DuplicateId>) -> Seq<char>
    decreases s.len(),
{
    if s.len() == 0 {
        Seq::empty()
    } else {
        dups_text(s.drop_last()) + refs_text(s.last().tasks@)
    }
}

/// The section on duplicated display ids.
pub open spec fn dups_section(r: DoctorReport) -> Seq<char> {
    if r.duplicate_display_ids@.len() > 0 {
        "duplicate display ids ("@ + nat_to_dec(r.duplicate_display_ids@.len())
            + ") — show/edit by uuid to disambiguate:\n"@ + dups_text(r.duplicate_display_ids@)
    } else { Seq::empty() }
}

/// The section on unresolved merge conflicts.
pub open spec fn conflicts_section(r: DoctorReport) -> Seq<char> {
    if r.unresolved_merge_conflicts@.len() > 0 {
        "unresolved merge conflicts ("@ + nat_to_dec(r.unresolved_merge_conflicts@.len())
            + ") — see `list --tag merge-conflict`:\n"@ + refs_text(r.unresolved_merge_conflicts@)
    } else { Seq::empty() }
}

/// A line `<label><n>` when the count `n` is positive.
pub open spec fn count_line(label: Seq<char>, n: i64) -> Seq<char> {
    if n > 0 { label + int_to_dec(n as int) + "\n"@ } else { Seq::empty() }
}

/// The section on dependency cycles.
pub open spec fn cycles_section(r: DoctorReport) -> Seq<char> {
    if r.dependency_cycles@.len() > 0 {
        "tasks participating in a dependency cycle ("@ + nat_to_dec(r.dependency_cycles@.len())
            + "):\n"@ + refs_text(r.dependency_cycles@)
    } else { Seq::empty() }
}

/// The text `doctor` prints for a report.
pub open spec fn report_text(r: DoctorReport) -> Seq<char> {
    if r.spec_is_clean() {
        "doctor: clean\n"@
    } else {
        dups_section(r) + conflicts_section(r)
            + count_line("orphaned tag rows (task_uuid with no matching task): "@, r.orphaned_tag_rows)
            + count_line("orphaned dep rows (task_uuid/depends_on_uuid with no matching task): "@, r.orphaned_dep_rows)
            + count_line("self-dependencies (task_uuid = depends_on_uuid): "@, r.self_deps)
            + count_line("orphaned related rows (task_uuid/related_uuid with no matching task): "@, r.orphaned_related_rows)
            + count_line("asymmetric related rows (a link without its mirror): "@, r.asymmetric_related_rows)
            + cycles_section(r)
    }
}

fn push_ref_line(out: &mut String, t: &TaskRef)
    ensures
        final(out)@ == old(out)@ + ref_line(*t),
{
    push_str(out, "  id=");
    let id = i64_to_string(t.id);
    push_str(out, id.as_str());
    push_str(out, " uuid=");
    push_str(out, t.uuid.as_str());
    push_str(out, " title=");
    push_str(out, t.title.as_str());
    push_str(out, "\n");
    assert(final(out)@ =~= old(out)@ + ref_line(*t));
}

fn push_refs(out: &mut String, refs: &Vec<TaskRef>)
    ensures
        final(out)@ == old(out)@ + refs_text(refs@),
{
    let ghost start = out@;
    let mut i: usize = 0;
    while i < refs.len()
        invariant
            i <= refs@.len(),
            out@ == start + refs_text(refs@.take(i as int)),
        decreases refs@.len() - i,
    {
        let ghost before = out@;
        push_ref_line(out, &refs[i]);
        assert(refs@.take(i + 1).drop_last() =~= refs@.take(i as int));
        assert(out@ =~= start + refs_text(refs@.take(i + 1)));
        i = i + 1;
    }
    assert(refs@.take(refs@.len() as int) =~= refs@);
}

fn push_dups(out: &mut String, dups: &Vec<DuplicateId>)
    ensures
        final(out)@ == old(out)@ + dups_text(dups@),
{
    let ghost start = out@;
    let mut i: usize = 0;
    while i < dups.len()
        invariant
            i <= dups@.len(),
            out@ == start + dups_text(dups@.take(i as int)),
        decreases dups@.len() - i,
    {
        push_refs(out, &dups[i].tasks);
        assert(dups@.take(i + 1).drop_last() =~= dups@.take(i as int));
        assert(out@ =~= start + dups_text(dups@.take(i + 1)));
        i = i + 1;
    }
    assert(dups@.take(dups@.len() as int) =~= dups@);
}

fn count_text(n: usize) -> (s: String)
    ensures
        s@ == nat_to_dec(n as nat),
{
    u64_to_string(n as u64)
}

fn push_count_line(out: &mut String, label: &str, n: i64)
    ensures
        final(out)@ == old(out)@ + count_line(label@, n),
{
    if n > 0 {
        push_str(out, label);
        let t = i64_to_string(n);
        push_str(out, t.as_str());
        push_str(out, "\n");
        assert(final(out)@ =~= old(out)@ + count_line(label@, n));
    } else {
        assert(final(out)@ =~= old(out)@ + count_line(label@, n));
    }
}

fn push_dups_section(out: &mut String, r: &DoctorReport)
    ensures
        final(out)@ == old(out)@ + dups_section(*r),
{
    if r.duplicate_display_ids.len() > 0 {
        push_str(out, "duplicate display ids (");
        let n = count_text(r.duplicate_display_ids.len());
        push_str(out, n.as_str());
        push_str(out, ") — show/edit by uuid to disambiguate:\n");
        push_dups(out, &r.duplicate_display_ids);
    }
    assert(final(out)@ =~= old(out)@ + dups_section(*r));
}

fn push_conflicts_section(out: &mut String, r: &DoctorReport)
    ensures
        final(out)@ == old(out)@ + conflicts_section(*r),
{
    if r.unresolved_merge_conflicts.len() > 0 {
        push_str(out, "unresolved merge conflicts (");
        let n = count_text(r.unresolved_merge_conflicts.len());
        push_str(out, n.as_str());
        push_str(out, ") — see `list --tag merge-conflict`:\n");
        push_refs(out, &r.unresolved_merge_conflicts);
    }
    assert(final(out)@ =~= old(out)@ + conflicts_section(*r));
}

fn push_cycles_section(out: &mut String, r: &DoctorReport)
    ensures
        final(out)@ == old(out)@ + cycles_section(*r),
{
    if r.dependency_cycles.len() > 0 {
        push_str(out, "tasks participating in a dependency cycle (");
        let n = count_text(r.dependency_cycles.len());
        push_str(out, n.as_str());
        push_str(out, "):\n");
        push_refs(out, &r.dependency_cycles);
    }
    assert(final(out)@ =~= old(out)@ + cycles_section(*r));
}

/// The text report `doctor` prints.
pub fn render_report(r: &DoctorReport) -> (s: String)
    ensures
        s@ == report_text(*r),
{
    if r.is_clean() {
        return "doctor: clean\n".to_string();
    }
    let mut out = String::new();
    push_dups_section(&mut out, r);
    push_conflicts_section(&mut out, r);
    push_count_line(&mut out, "orphaned tag rows (task_uuid with no matching task): ", r.orphaned_tag_rows);
    push_count_line(&mut out, "orphaned dep rows (task_uuid/depends_on_uuid with no matching task): ", r.orphaned_dep_rows);
    push_count_line(&mut out, "self-dependencies (task_uuid = depends_on_uuid): ", r.self_deps);
    push_count_line(&mut out, "orphaned related rows (task_uuid/related_uuid with no matching task): ", r.orphaned_related_rows);
    push_count_line(&mut out, "asymmetric related rows (a link without its mirror): ", r.asymmetric_related_rows);
    push_cycles_section(&mut out, r);
    assert(out@ =~= report_text(*r));
    out
}

/// The number of "see also" rows whose mirror row is missing.
pub open spec fn asymmetric_count(rows: Seq<Link>, upto: int) -> int
    decreases upto,
{
    if upto <= 0 {
        0
    } else {
        asymmetric_count(rows, upto - 1)
            + if has_link(rows, rows[upto - 1].to@, rows[upto - 1].from@) { 0int } else { 1int }
    }
}

fn has_row(rows: &Vec<Link>, from: &String, to: &String) -> (r: bool)
    ensures
        r == has_link(rows@, from@, to@),
{
    let mut i: usize = 0;
    while i < rows.len()
        invariant
            i <= rows@.len(),
            forall|j: int| 0 <= j < i ==> !(#[trigger] rows@[j].from@ == from@ && rows@[j].to@ == to@),
        decreases rows@.len() - i,
    {
        if str_eq(rows[i].from.as_str(), from.as_str()) && str_eq(rows[i].to.as_str(), to.as_str()) {
            return true;
        }
        i = i + 1;
    }
    false
}

/// Counts the "see also" rows `(a, b)` with no row `(b, a)`: links are
/// always written in both directions, so such a row means other tooling
/// touched the database.
pub fn asymmetric_related_rows(rows: &Vec<Link>) -> (n: i64)
    requires
        rows@.len() <= i64::MAX,
    ensures
        n as int == asymmetric_count(rows@, rows@.len() as int),
{
    let mut n: i64 = 0;
    let mut i: usize = 0;
    while i < rows.len()
        invariant
            i <= rows@.len(),
            rows@.len() <= i64::MAX,
            n as int == asymmetric_count(rows@, i as int),
            0 <= n <= i,
        decreases rows@.len() - i,
    {
        if !has_row(rows, &rows[i].to, &rows[i].from) {
            n = n + 1;
        }
        i = i + 1;
    }
    n
}

/// Entry `a` comes before entry `b`: the smaller id first, ties in their
/// input order.
pub open spec fn id_before(ids: Seq<i64>, a: int, b: int) -> bool {
    ids[a] < ids[b] || (ids[a] == ids[b] && a < b)
}

/// `order` lists every entry once, by id, ties in their input order.
pub open spec fn is_id_order(ids: Seq<i64>, order: Seq<usize>) -> bool {
    &&& order.len() == ids.len()
    &&& forall|k: int| 0 <= k < order.len() ==> #[trigger] order[k] < ids.len()
    &&& forall|i: int, j: int| 0 <= i < j < order.len() ==> id_before(ids, #[trigger] order[i] as int, #[trigger] order[j] as int)
}

/// The order in which the report lists tasks (the members of a dependency
/// cycle): a stable sort by display id.
pub fn order_by_id(ids: &Vec<i64>) -> (order: Vec<usize>)
    ensures
        is_id_order(ids@, order@),
{
    let mut order: Vec<usize> = Vec::new();
    let mut k: usize = 0;
    while k < ids.len()
        invariant
            k <= ids@.len(),
            order@.len() == k,
            forall|x: int| 0 <= x < order@.len() ==> #[trigger] order@[x] < k,
            forall|i: int, j: int| 0 <= i < j < order@.len() ==> id_before(ids@, #[trigger] order@[i] as int, #[trigger] order@[j] as int),
        decreases ids@.len() - k,
    {
        // first position whose entry must come after entry k
        let mut p: usize = 0;
        while p < order.len() && ids[order[p]] <= ids[k]
            invariant
                k < ids@.len(),
                p <= order@.len(),
                forall|x: int| 0 <= x < order@.len() ==> #[trigger] order@[x] < k,
                forall|x: int| 0 <= x < p ==> id_before(ids@, #[trigger] order@[x] as int, k as int),
            decreases order@.len() - p,
        {
            p = p + 1;
        }
        proof {
            assert forall|x: int| p <= x < order@.len() implies id_before(ids@, k as int, #[trigger] order@[x] as int) by {
                if x > p {
                    assert(id_before(ids@, order@[p as int] as int, order@[x] as int));
                }
            }
        }
        let ghost old_order = order@;
        order.insert(p, k);
        proof {
            assert(order@ == old_order.insert(p as int, k));
            assert forall|i: int, j: int| 0 <= i < j < order@.len() implies id_before(ids@, #[trigger] order@[i] as int, #[trigger] order@[j] as int) by {
                if j < p {
                    assert(order@[i] == old_order[i] && order@[j] == old_order[j]);
                } else if j == p {
                    assert(order@[i] == old_order[i]);
                } else if i < p {
                    assert(order@[i] == old_order[i] && order@[j] == old_order[j - 1]);
                    assert(id_before(ids@, old_order[i] as int, k as int));
                    assert(id_before(ids@, k as int, old_order[j - 1] as int));
                } else if i == p {
                    assert(order@[j] == old_order[j - 1]);
                } else {
                    assert(order@[i] == old_order[i - 1] && order@[j] == old_order[j - 1]);
                }
            }
            assert forall|x: int| 0 <= x < order@.len() implies #[trigger] order@[x] < k + 1 by {
                if x < p { assert(order@[x] == old_order[x]); } else if x > p { assert(order@[x] == old_order[x - 1]); }
            }
        }
        k = k + 1;
    }
    order
}

} // verus!
