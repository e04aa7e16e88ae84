//! What `merge` and the git merge driver report around the merge itself:
//! the temporary file name, the summaries, and the errors for conflicts.
use vstd::prelude::*;
use crate::error::{CliError, is_user_error};
use crate::merge::{ConflictNote, MergeReport, MergedTask};
use crate::strs::seq_view;
use crate::text::{i64_to_string, int_to_dec, nat_to_dec, push_str, str_eq, trim, trim_spec, u64_to_string};

verus! {

/// The name of the file the merge is written to before it replaces the
/// target: `.<name>.merging.tmp`, `merged` standing in for a missing name.
pub open spec fn temp_name_spec(name: Option<Seq<char>>) -> Seq<char> {
    "."@ + (match name { Some(n) => n, None => "merged"@ }) + ".merging.tmp"@
}

pub fn merging_temp_name(name: &Option<String>) -> (r: String)
    ensures
        r@ == temp_name_spec(crate::strs::opt_view(*name)),
{
    let mut r = ".".to_string();
    match name {
        Some(n) => push_str(&mut r, n.as_str()),
        None => push_str(&mut r, "merged"),
    }
    push_str(&mut r, ".merging.tmp");
    r
}

fn count_text(n: usize) -> (s: String)
    ensures
        s@ == nat_to_dec(n as nat),
{
    u64_to_string(n as u64)
}

/// `<n> conflict(s) found; aborting (--strict). ...`.
pub open spec fn strict_abort_msg(n: nat) -> Seq<char> {
    nat_to_dec(n) + " conflict(s) found; aborting (--strict). Re-run without --strict to auto-resolve and flag them with the 'merge-conflict' tag."@
}

/// The error of `merge --strict` when hard conflicts were found.
pub fn strict_abort_error(report: &MergeReport) -> (e: CliError)
    ensures
        is_user_error(e, strict_abort_msg(report.conflicts@.len())),
{
    let mut m = count_text(report.conflicts.len());
    push_str(&mut m, " conflict(s) found; aborting (--strict). Re-run without --strict to auto-resolve and flag them with the 'merge-conflict' tag.");
    CliError::User(m)
}

/// `todo-sqlite-cli: merged <n> task(s), <c> conflict(s)` and a newline.
pub open spec fn driver_summary_spec(r: MergeReport) -> Seq<char> {
    "todo-sqlite-cli: merged "@ + nat_to_dec(r.tasks_total as nat) + " task(s), "@
        + nat_to_dec(r.conflicts@.len()) + " conflict(s)\n"@
}

/// The line the git merge driver prints after a merge.
pub fn driver_summary(r: &MergeReport) -> (s: String)
    ensures
        s@ == driver_summary_spec(*r),
{
    let mut s = "todo-sqlite-cli: merged ".to_string();
    let a = count_text(r.tasks_total);
    push_str(&mut s, a.as_str());
    push_str(&mut s, " task(s), ");
    let b = count_text(r.conflicts.len());
    push_str(&mut s, b.as_str());
    push_str(&mut s, " conflict(s)\n");
    s
}

/// `<n> conflict(s) need review — ...`.
pub open spec fn driver_conflicts_msg(n: nat) -> Seq<char> {
    nat_to_dec(n) + " conflict(s) need review — tagged 'merge-conflict' in the merged file (run `todo-sqlite-cli list --tag merge-conflict` after resolving)"@
}

/// The git merge driver's outcome: success without conflicts; with them,
/// an error (so that git leaves the file for review).
pub fn driver_outcome(r: &MergeReport) -> (res: Result<(), CliError>)
    ensures
        res is Ok <==> r.conflicts@.len() == 0,
        res matches Err(e) ==> is_user_error(e, driver_conflicts_msg(r.conflicts@.len())),
{
    if r.conflicts.len() == 0 {
        return Ok(());
    }
    let mut m = count_text(r.conflicts.len());
    push_str(&mut m, " conflict(s) need review — tagged 'merge-conflict' in the merged file (run `todo-sqlite-cli list --tag merge-conflict` after resolving)");
    Err(CliError::User(m))
}

/// The head of the text report of `merge` (the per-conflict lines follow it).
pub open spec fn merge_summary_spec(into: Seq<char>, r: MergeReport) -> Seq<char> {
    "merged into "@ + into + "\n"@
        + "tasks: "@ + nat_to_dec(r.tasks_total as nat) + "\n"@
        + (if r.auto_resolved > 0 { "auto-resolved (no review needed): "@ + nat_to_dec(r.auto_resolved as nat) + "\n"@ } else { Seq::empty() })
        + (if r.conflicts@.len() == 0 {
            "conflicts: 0\n"@
        } else {
            "conflicts: "@ + nat_to_dec(r.conflicts@.len()) + " (tagged 'merge-conflict' — see `list --tag merge-conflict`)\n"@
        })
}

pub fn merge_summary(into: &str, r: &MergeReport) -> (s: String)
    ensures
        s@ == merge_summary_spec(into@, *r),
{
    let mut s = "merged into ".to_string();
    push_str(&mut s, into);
    push_str(&mut s, "\n");
    push_str(&mut s, "tasks: ");
    let a = count_text(r.tasks_total);
    push_str(&mut s, a.as_str());
    push_str(&mut s, "\n");
    let ghost h = s@;
    if r.auto_resolved > 0 {
        push_str(&mut s, "auto-resolved (no review needed): ");
        let b = count_text(r.auto_resolved);
        push_str(&mut s, b.as_str());
        push_str(&mut s, "\n");
    }
    let ghost h2 = s@;
    if r.conflicts.len() == 0 {
        push_str(&mut s, "conflicts: 0\n");
    } else {
        push_str(&mut s, "conflicts: ");
        let c = count_text(r.conflicts.len());
        push_str(&mut s, c.as_str());
        push_str(&mut s, " (tagged 'merge-conflict' — see `list --tag merge-conflict`)\n");
    }
    assert(s@ =~= merge_summary_spec(into@, *r));
    s
}

/// The lines of a text: split at each newline, a final newline ending the
/// last line rather than starting an empty one.
pub open spec fn text_lines(s: Seq<char>) -> Seq<Seq<char>>
    decreases s.len(),
{
    if s.len() == 0 {
        Seq::empty()
    } else {
        let k = line_end(s, 0);
        if 0 <= k < s.len() {
            seq![s.subrange(0, k)] + text_lines(s.subrange(k + 1, s.len() as int))
        } else {
            seq![s]
        }
    }
}

/// The position of the first newline at or after `i` (the length when none).
pub open spec fn line_end(s: Seq<char>, i: int) -> int
    decreases s.len() - i,
{
    if i >= s.len() {
        s.len() as int
    } else if s[i] == '\n' {
        i
    } else {
        line_end(s, i + 1)
    }
}

proof fn lemma_line_end_bounds(s: Seq<char>, i: int)
    requires
        0 <= i <= s.len(),
    ensures
        i <= line_end(s, i) <= s.len(),
        line_end(s, i) < s.len() ==> s[line_end(s, i)] == '\n',
        forall|j: int| i <= j < line_end(s, i) ==> s[j] != '\n',
    decreases s.len() - i,
{
    if i < s.len() && s[i] != '\n' {
        lemma_line_end_bounds(s, i + 1);
    }
}

/// Whether some line of `content`, trimmed, is `line`.
pub open spec fn has_line(content: Seq<char>, line: Seq<char>) -> bool {
    exists|k: int| 0 <= k < text_lines(content).len() && trim_spec(#[trigger] text_lines(content)[k]) == line
}

/// `.gitattributes` once it names the merge driver: unchanged (`None`) when
/// a line already says so; else the line appended, after a newline when
/// the old text does not end in one.
pub open spec fn attributes_after(content: Seq<char>, line: Seq<char>) -> Option<Seq<char>> {
    if has_line(content, line) {
        None
    } else {
        Some((if content.len() > 0 && content.last() != '\n' { content.push('\n') } else { content }) + line + "\n"@)
    }
}

proof fn lemma_lines_step(s: Seq<char>)
    requires
        s.len() > 0,
    ensures
        line_end(s, 0) < s.len() ==> text_lines(s) == seq![s.subrange(0, line_end(s, 0))] + text_lines(s.subrange(line_end(s, 0) + 1, s.len() as int)),
        line_end(s, 0) >= s.len() ==> text_lines(s) == seq![s],
{
    lemma_line_end_bounds(s, 0);
}

fn has_line_exec(content: &str, line: &str) -> (r: bool)
    ensures
        r == has_line(content@, line@),
{
    let n = content.unicode_len();
    let mut start: usize = 0;
    let ghost mut seen: Seq<Seq<char>> = Seq::empty();
    proof { assert(content@.subrange(0, n as int) =~= content@); }
    while start < n
        invariant
            n == content@.len(),
            start <= n,
            text_lines(content@) == seen + text_lines(content@.subrange(start as int, n as int)),
            forall|k: int| 0 <= k < seen.len() ==> trim_spec(#[trigger] seen[k]) != line@,
        decreases n - start,
    {
        let ghost rest = content@.subrange(start as int, n as int);
        let mut e: usize = start;
        while e < n && content.get_char(e) != '\n'
            invariant
                n == content@.len(),
                start <= e <= n,
                forall|j: int| start <= j < e ==> content@[j] != '\n',
            decreases n - e,
        {
            e = e + 1;
        }
        proof {
            lemma_line_end_bounds(rest, 0);
            assert(line_end(rest, 0) == e - start) by {
                lemma_line_end_eq(rest, 0, e - start);
            }
            lemma_lines_step(rest);
        }
        let piece = content.substring_char(start, e);
        let t = trim(piece);
        let ghost pv = content@.subrange(start as int, e as int);
        assert(pv =~= rest.subrange(0, e - start));
        if str_eq(t.as_str(), line) {
            proof {
                let k = seen.len() as int;
                assert(text_lines(content@)[k] == pv);
            }
            return true;
        }
        proof {
            if e < n {
                assert(rest.subrange(e - start + 1, rest.len() as int) =~= content@.subrange(e + 1, n as int));
                seen = seen.push(pv);
            } else {
                seen = seen.push(pv);
                assert(rest =~= pv);
                assert(content@.subrange(n as int, n as int) =~= Seq::<char>::empty());
            }
        }
        if e < n {
            start = e + 1;
        } else {
            start = n;
        }
        proof {
            assert(text_lines(content@) =~= seen + text_lines(content@.subrange(start as int, n as int)));
        }
    }
    proof {
        assert(content@.subrange(n as int, n as int) =~= Seq::<char>::empty());
        assert(text_lines(content@) =~= seen);
    }
    false
}

proof fn lemma_line_end_eq(s: Seq<char>, i: int, k: int)
    requires
        0 <= i <= k <= s.len(),
        forall|j: int| i <= j < k ==> s[j] != '\n',
        k == s.len() || s[k] == '\n',
    ensures
        line_end(s, i) == k,
    decreases k - i,
{
    if i < k {
        lemma_line_end_eq(s, i + 1, k);
    }
}

/// The new `.gitattributes` text, or `None` when it already names the
/// merge driver for the database.
pub fn attributes_update(content: &str, line: &str) -> (r: Option<String>)
    ensures
        match r {
            Some(v) => attributes_after(content@, line@) == Some(v@),
            None => attributes_after(content@, line@) is None,
        },
{
    if has_line_exec(content, line) {
        return None;
    }
    let mut out = content.to_string();
    let n = content.unicode_len();
    if n > 0 && content.get_char(n - 1) != '\n' {
        crate::text::push_char(&mut out, '\n');
    }
    push_str(&mut out, line);
    push_str(&mut out, "\n");
    Some(out)
}

/// What `{:?}` writes for a string: the string between double quotes, with
/// quotes, backslashes and control or non-printable characters escaped.
pub uninterp spec fn debug_quoted(s: Seq<char>) -> Seq<char>;

/// `format!("{:?}", s)`: std's `Debug` for `str`. Its text is named, not
/// spelled out here.
#[verifier::external_body]
fn debug_quote(s: &str) -> (r: String)
    ensures
        r@ == debug_quoted(s@),
{
    format!("{:?}", s)
}

/// `  task <id>: <field> — ours=<ours> theirs=<theirs> (<resolution>)`
/// and a newline, the two values already quoted.
pub open spec fn conflict_line_spec(c: ConflictNote, ours: Seq<char>, theirs: Seq<char>) -> Seq<char> {
    "  task "@ + int_to_dec(c.task_id as int) + ": "@ + c.field@ + " — ours="@ + ours + " theirs="@ + theirs
        + " ("@ + c.resolution@ + ")\n"@
}

/// The report line of one conflict, given the quoted forms of its two
/// values.
pub fn conflict_line_with(c: &ConflictNote, ours: &str, theirs: &str) -> (s: String)
    ensures
        s@ == conflict_line_spec(*c, ours@, theirs@),
{
    let mut s = "  task ".to_string();
    let id = i64_to_string(c.task_id);
    push_str(&mut s, id.as_str());
    push_str(&mut s, ": ");
    push_str(&mut s, c.field.as_str());
    push_str(&mut s, " — ours=");
    push_str(&mut s, ours);
    push_str(&mut s, " theirs=");
    push_str(&mut s, theirs);
    push_str(&mut s, " (");
    push_str(&mut s, c.resolution.as_str());
    push_str(&mut s, ")\n");
    s
}

/// The report line of one conflict, as `merge` and the merge driver print
/// it under their summaries, each value shown as `{:?}` shows it.
pub fn conflict_line(c: &ConflictNote) -> (s: String)
    ensures
        s@ == conflict_line_spec(*c, debug_quoted(c.ours@), debug_quoted(c.theirs@)),
{
    let o = debug_quote(c.ours.as_str());
    let t = debug_quote(c.theirs.as_str());
    conflict_line_with(c, o.as_str(), t.as_str())
}

/// The tag a merged task with a hard conflict carries.
pub open spec fn conflict_tag() -> Seq<char> {
    "merge-conflict"@
}

/// The tags written for a merged task: its own, then `merge-conflict` when
/// it has a hard conflict.
pub fn written_tags(m: &MergedTask) -> (tags: Vec<String>)
    ensures
        seq_view(tags@) == seq_view(m.tags@) + (if m.conflict { seq![conflict_tag()] } else { Seq::empty() }),
{
    let mut tags = crate::strs::clone_strings(&m.tags);
    if m.conflict {
        tags.push("merge-conflict".to_string());
    }
    assert(seq_view(tags@) =~= seq_view(m.tags@) + (if m.conflict { seq![conflict_tag()] } else { Seq::empty() }));
    tags
}

} // verus!
