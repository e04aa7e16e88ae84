//! Text renderings of tasks: the `show` page, a `list` table row, and the
//! markdown of `export-todo`.
use vstd::prelude::*;
use crate::task::Task;
use crate::text::{i64_to_string, int_to_dec, nat_to_dec, push_char, push_str};

verus! {

/// `<prefix><name>: <value>` and a newline.
pub open spec fn field_line(prefix: Seq<char>, name: Seq<char>, value: Seq<char>) -> Seq<char> {
    prefix + name + ": "@ + value + "\n"@
}

/// The line for an optional column, none when it is unset.
pub open spec fn opt_line(prefix: Seq<char>, name: Seq<char>, value: Option<String>) -> Seq<char> {
    match value {
        Some(v) => field_line(prefix, name, v@),
        None => Seq::empty(),
    }
}

/// Display ids joined by `, `.
pub open spec fn join_ids(ids: Seq<i64>) -> Seq<char>
    decreases ids.len(),
{
    if ids.len() == 0 {
        Seq::empty()
    } else if ids.len() == 1 {
        int_to_dec(ids[0] as int)
    } else {
        join_ids(ids.drop_last()) + ", "@ + int_to_dec(ids.last() as int)
    }
}

/// Strings joined by `sep`.
pub open spec fn join_strs(s: Seq<String>, sep: Seq<char>) -> Seq<char>
    decreases s.len(),
{
    if s.len() == 0 {
        Seq::empty()
    } else if s.len() == 1 {
        s[0]@
    } else {
        join_strs(s.drop_last(), sep) + sep + s.last()@
    }
}

/// Texts joined by `sep`.
pub open spec fn join_strs_seq(s: Seq<Seq<char>>, sep: Seq<char>) -> Seq<char>
    decreases s.len(),
{
    if s.len() == 0 {
        Seq::empty()
    } else if s.len() == 1 {
        s[0]
    } else {
        join_strs_seq(s.drop_last(), sep) + sep + s.last()
    }
}

/// The title as shown: gates carry a `[GATE] ` prefix.
pub open spec fn shown_title(t: Task) -> Seq<char> {
    if t.is_gate { "[GATE] "@ + t.title@ } else { t.title@ }
}

/// The dependency list, with ` (blocked)` when one is still open.
pub open spec fn deps_value(t: Task) -> Seq<char> {
    join_ids(t.depends_on@) + if t.blocked { " (blocked)"@ } else { Seq::empty() }
}

fn push_join_ids(out: &mut String, ids: &Vec<i64>)
    ensures
        final(out)@ == old(out)@ + join_ids(ids@),
{
    let ghost start = out@;
    let mut i: usize = 0;
    while i < ids.len()
        invariant
            i <= ids@.len(),
            out@ == start + join_ids(ids@.take(i as int)),
        decreases ids@.len() - i,
    {
        if i > 0 {
            push_str(out, ", ");
        }
        let d = i64_to_string(ids[i]);
        push_str(out, d.as_str());
        assert(ids@.take(i + 1).drop_last() =~= ids@.take(i as int));
        assert(out@ =~= start + join_ids(ids@.take(i + 1)));
        i = i + 1;
    }
    assert(ids@.take(ids@.len() as int) =~= ids@);
}

fn push_join_strs(out: &mut String, s: &Vec<String>, sep: &str)
    ensures
        final(out)@ == old(out)@ + join_strs(s@, sep@),
{
    let ghost start = out@;
    let mut i: usize = 0;
    while i < s.len()
        invariant
            i <= s@.len(),
            out@ == start + join_strs(s@.take(i as int), sep@),
        decreases s@.len() - i,
    {
        if i > 0 {
            push_str(out, sep);
        }
        push_str(out, s[i].as_str());
        assert(s@.take(i + 1).drop_last() =~= s@.take(i as int));
        assert(out@ =~= start + join_strs(s@.take(i + 1), sep@));
        i = i + 1;
    }
    assert(s@.take(s@.len() as int) =~= s@);
}

fn push_field(out: &mut String, prefix: &str, name: &str, value: &str)
    ensures
        final(out)@ == old(out)@ + field_line(prefix@, name@, value@),
{
    push_str(out, prefix);
    push_str(out, name);
    push_str(out, ": ");
    push_str(out, value);
    push_str(out, "\n");
    assert(final(out)@ =~= old(out)@ + field_line(prefix@, name@, value@));
}

fn push_opt_field(out: &mut String, prefix: &str, name: &str, value: &Option<String>)
    ensures
        final(out)@ == old(out)@ + opt_line(prefix@, name@, *value),
{
    match value {
        Some(v) => push_field(out, prefix, name, v.as_str()),
        None => { assert(final(out)@ =~= old(out)@ + opt_line(prefix@, name@, *value)); },
    }
}

fn title_text(t: &Task) -> (s: String)
    ensures
        s@ == shown_title(*t),
{
    let mut s = String::new();
    if t.is_gate {
        push_str(&mut s, "[GATE] ");
    }
    push_str(&mut s, t.title.as_str());
    assert(s@ =~= shown_title(*t));
    s
}

fn deps_text(t: &Task) -> (s: String)
    ensures
        s@ == deps_value(*t),
{
    let mut s = String::new();
    push_join_ids(&mut s, &t.depends_on);
    if t.blocked {
        push_str(&mut s, " (blocked)");
    }
    assert(s@ =~= deps_value(*t));
    s
}

fn priority_text(p: i64) -> (s: String)
    ensures
        s@ == "P"@ + int_to_dec(p as int),
{
    let mut s = "P".to_string();
    let d = i64_to_string(p);
    push_str(&mut s, d.as_str());
    s
}

// ---- show ----

/// The head of the `show` page: id and title always; status and priority
/// unless terse and at their defaults (pending, P3).
pub open spec fn show_head(t: Task, verbose: bool) -> Seq<char> {
    field_line(""@, "Task ID"@, int_to_dec(t.id as int))
        + field_line(""@, "Title"@, shown_title(t))
        + (if verbose || t.status@ != "pending"@ { field_line(""@, "Status"@, t.status@) } else { Seq::empty() })
        + (if verbose || t.priority != 3 { field_line(""@, "Priority"@, "P"@ + int_to_dec(t.priority as int)) } else { Seq::empty() })
}

/// Dependencies, tags and "see also" links, each when there are any.
pub open spec fn show_links(t: Task) -> Seq<char> {
    (if t.depends_on@.len() > 0 { field_line(""@, "Dependencies"@, deps_value(t)) } else { Seq::empty() })
        + (if t.tags@.len() > 0 { field_line(""@, "Tags"@, join_strs(t.tags@, ", "@)) } else { Seq::empty() })
        + (if t.related@.len() > 0 { field_line(""@, "Related"@, join_ids(t.related@)) } else { Seq::empty() })
}

/// Location, project and client, each when set.
pub open spec fn show_places(t: Task) -> Seq<char> {
    opt_line(""@, "Location"@, t.location) + opt_line(""@, "Project"@, t.project_name)
        + opt_line(""@, "Client"@, t.implementation_client)
}

/// Timestamps (creation only when verbose) and the details body.
pub open spec fn show_times(t: Task, verbose: bool) -> Seq<char> {
    (if verbose { field_line(""@, "Created"@, t.created_at@) } else { Seq::empty() })
        + opt_line(""@, "Started"@, t.started_at) + opt_line(""@, "Completed"@, t.completed_at)
        + match t.details {
            Some(d) => "Details:\n"@ + d@ + "\n"@,
            None => Seq::empty(),
        }
}

/// The `show` page of a task.
pub open spec fn show_text(t: Task, verbose: bool) -> Seq<char> {
    show_head(t, verbose) + show_links(t) + show_places(t) + show_times(t, verbose)
}

fn push_show_head(out: &mut String, t: &Task, verbose: bool)
    ensures
        final(out)@ == old(out)@ + show_head(*t, verbose),
{
    let id = i64_to_string(t.id);
    push_field(out, "", "Task ID", id.as_str());
    let title = title_text(t);
    push_field(out, "", "Title", title.as_str());
    let ghost mid = out@;
    if verbose || !crate::text::str_eq(t.status.as_str(), "pending") {
        push_field(out, "", "Status", t.status.as_str());
    }
    let ghost mid2 = out@;
    if verbose || t.priority != 3 {
        let p = priority_text(t.priority);
        push_field(out, "", "Priority", p.as_str());
    }
    assert(final(out)@ =~= old(out)@ + show_head(*t, verbose));
}

fn push_show_links(out: &mut String, t: &Task)
    ensures
        final(out)@ == old(out)@ + show_links(*t),
{
    if t.depends_on.len() > 0 {
        let d = deps_text(t);
        push_field(out, "", "Dependencies", d.as_str());
    }
    let ghost a = out@;
    if t.tags.len() > 0 {
        let mut v = String::new();
        push_join_strs(&mut v, &t.tags, ", ");
        push_field(out, "", "Tags", v.as_str());
    }
    let ghost b = out@;
    if t.related.len() > 0 {
        let mut v = String::new();
        push_join_ids(&mut v, &t.related);
        push_field(out, "", "Related", v.as_str());
    }
    assert(final(out)@ =~= old(out)@ + show_links(*t));
}

fn push_show_places(out: &mut String, t: &Task)
    ensures
        final(out)@ == old(out)@ + show_places(*t),
{
    push_opt_field(out, "", "Location", &t.location);
    push_opt_field(out, "", "Project", &t.project_name);
    push_opt_field(out, "", "Client", &t.implementation_client);
    assert(final(out)@ =~= old(out)@ + show_places(*t));
}

fn push_show_times(out: &mut String, t: &Task, verbose: bool)
    ensures
        final(out)@ == old(out)@ + show_times(*t, verbose),
{
    if verbose {
        push_field(out, "", "Created", t.created_at.as_str());
    }
    let ghost a = out@;
    push_opt_field(out, "", "Started", &t.started_at);
    push_opt_field(out, "", "Completed", &t.completed_at);
    let ghost b = out@;
    match &t.details {
        Some(d) => {
            push_str(out, "Details:\n");
            push_str(out, d.as_str());
            push_str(out, "\n");
        },
        None => {},
    }
    assert(final(out)@ =~= old(out)@ + show_times(*t, verbose));
}

/// The text `show` prints. Terse by default: status and priority are left
/// out at their defaults and the creation time only shows when verbose.
pub fn task_text(t: &Task, verbose: bool) -> (s: String)
    ensures
        s@ == show_text(*t, verbose),
{
    let mut out = String::new();
    push_show_head(&mut out, t, verbose);
    push_show_links(&mut out, t);
    push_show_places(&mut out, t);
    push_show_times(&mut out, t, verbose);
    assert(out@ =~= show_text(*t, verbose));
    out
}

// ---- list table ----

/// `n` spaces.
pub open spec fn spaces(n: int) -> Seq<char>
    decreases n,
{
    if n <= 0 { Seq::empty() } else { spaces(n - 1).push(' ') }
}

/// Right-aligned in a field of width `w` (`{:>w}`).
pub open spec fn pad_left(s: Seq<char>, w: int) -> Seq<char> {
    spaces(w - s.len()) + s
}

/// Left-aligned in a field of width `w` (`{:<w}`).
pub open spec fn pad_right(s: Seq<char>, w: int) -> Seq<char> {
    s + spaces(w - s.len())
}

/// A table row: id (width 4), status (width 11), priority, the title with
/// ` +project` and ` @location` when set, ` [tags]` and ` [blocked]`.
pub open spec fn table_row(t: Task) -> Seq<char> {
    pad_left(int_to_dec(t.id as int), 4) + "  "@ + pad_right(t.status@, 11) + "  P"@
        + int_to_dec(t.priority as int) + "  "@ + shown_title(t)
        + (match t.project_name { Some(p) => " +"@ + p@, None => Seq::empty() })
        + (match t.location { Some(l) => " @"@ + l@, None => Seq::empty() })
        + (if t.tags@.len() > 0 { " ["@ + join_strs(t.tags@, ","@) + "]"@ } else { Seq::empty() })
        + (if t.blocked { " [blocked]"@ } else { Seq::empty() })
        + "\n"@
}

fn push_spaces(out: &mut String, n: usize)
    ensures
        final(out)@ == old(out)@ + spaces(n as int),
{
    let ghost start = out@;
    let mut i: usize = 0;
    while i < n
        invariant
            i <= n,
            out@ == start + spaces(i as int),
        decreases n - i,
    {
        push_char(out, ' ');
        assert(out@ =~= start + spaces(i + 1));
        i = i + 1;
    }
}

fn push_table_head(out: &mut String, t: &Task)
    ensures
        final(out)@ == old(out)@ + pad_left(int_to_dec(t.id as int), 4) + "  "@ + pad_right(t.status@, 11) + "  P"@
            + int_to_dec(t.priority as int) + "  "@ + shown_title(*t),
{
    let id = i64_to_string(t.id);
    let n = id.unicode_len();
    if n < 4 {
        push_spaces(out, 4 - n);
    } else {
        assert(spaces(4 - n) =~= Seq::<char>::empty());
        push_spaces(out, 0);
    }
    push_str(out, id.as_str());
    push_str(out, "  ");
    push_str(out, t.status.as_str());
    let m = t.status.unicode_len();
    if m < 11 {
        push_spaces(out, 11 - m);
    } else {
        assert(spaces(11 - m) =~= Seq::<char>::empty());
        push_spaces(out, 0);
    }
    push_str(out, "  P");
    let p = i64_to_string(t.priority);
    push_str(out, p.as_str());
    push_str(out, "  ");
    let title = title_text(t);
    push_str(out, title.as_str());
    assert(final(out)@ =~= old(out)@ + pad_left(int_to_dec(t.id as int), 4) + "  "@ + pad_right(t.status@, 11) + "  P"@
        + int_to_dec(t.priority as int) + "  "@ + shown_title(*t));
}

/// One row of the `list` table.
pub fn table_line(t: &Task) -> (s: String)
    ensures
        s@ == table_row(*t),
{
    let mut out = String::new();
    push_table_head(&mut out, t);
    let ghost h = out@;
    match &t.project_name {
        Some(p) => { push_str(&mut out, " +"); push_str(&mut out, p.as_str()); },
        None => {},
    }
    let ghost a = out@;
    match &t.location {
        Some(l) => { push_str(&mut out, " @"); push_str(&mut out, l.as_str()); },
        None => {},
    }
    let ghost b = out@;
    if t.tags.len() > 0 {
        push_str(&mut out, " [");
        push_join_strs(&mut out, &t.tags, ",");
        push_str(&mut out, "]");
    }
    let ghost c = out@;
    if t.blocked {
        push_str(&mut out, " [blocked]");
    }
    push_str(&mut out, "\n");
    assert(out@ =~= table_row(*t));
    out
}

// ---- markdown ----

/// The field prefix of markdown: a heading per field when verbose.
pub open spec fn md_prefix(verbose: bool) -> Seq<char> {
    if verbose { "# "@ } else { ""@ }
}

/// The details body in markdown: followed by a newline unless it ends in one.
pub open spec fn md_details(p: Seq<char>, details: Option<String>) -> Seq<char> {
    match details {
        Some(d) => p + "Details:\n"@ + d@
            + if d@.len() > 0 && d@.last() == '\n' { Seq::empty() } else { "\n"@ },
        None => Seq::empty(),
    }
}

/// The fields every task shows in the markdown export.
pub open spec fn md_head(t: Task, p: Seq<char>) -> Seq<char> {
    field_line(p, "Task ID"@, int_to_dec(t.id as int))
        + field_line(p, "Title"@, shown_title(t))
        + field_line(p, "Status"@, t.status@)
        + field_line(p, "Priority"@, "P"@ + int_to_dec(t.priority as int))
}

/// The dependencies line: the list, or `none` when verbose.
pub open spec fn md_deps(t: Task, verbose: bool, p: Seq<char>) -> Seq<char> {
    if t.depends_on@.len() > 0 {
        field_line(p, "Dependencies"@, deps_value(t))
    } else if verbose {
        field_line(p, "Dependencies"@, "none"@)
    } else {
        Seq::empty()
    }
}

/// Tags, location, project and details, each when present, then the rule.
pub open spec fn md_rest(t: Task, p: Seq<char>) -> Seq<char> {
    (if t.tags@.len() > 0 { field_line(p, "Tags"@, join_strs(t.tags@, ", "@)) } else { Seq::empty() })
        + opt_line(p, "Location"@, t.location) + opt_line(p, "Project"@, t.project_name)
        + md_details(p, t.details)
        + "\n---\n\n"@
}

/// One task of the markdown export. Terse output leaves out the
/// `Dependencies: none` line that verbose output keeps.
pub open spec fn md_task(t: Task, verbose: bool) -> Seq<char> {
    md_head(t, md_prefix(verbose)) + md_deps(t, verbose, md_prefix(verbose)) + md_rest(t, md_prefix(verbose))
}

/// The whole markdown export.
pub open spec fn md_tasks(ts: Seq<Task>, verbose: bool) -> Seq<char>
    decreases ts.len(),
{
    if ts.len() == 0 {
        Seq::empty()
    } else {
        md_tasks(ts.drop_last(), verbose) + md_task(ts.last(), verbose)
    }
}

fn push_md_head(out: &mut String, t: &Task, p: &str)
    ensures
        final(out)@ == old(out)@ + md_head(*t, p@),
{
    let id = i64_to_string(t.id);
    push_field(out, p, "Task ID", id.as_str());
    let title = title_text(t);
    push_field(out, p, "Title", title.as_str());
    push_field(out, p, "Status", t.status.as_str());
    let pr = priority_text(t.priority);
    push_field(out, p, "Priority", pr.as_str());
    assert(final(out)@ =~= old(out)@ + md_head(*t, p@));
}

fn push_md_deps(out: &mut String, t: &Task, verbose: bool, p: &str)
    ensures
        final(out)@ == old(out)@ + md_deps(*t, verbose, p@),
{
    if t.depends_on.len() > 0 {
        let d = deps_text(t);
        push_field(out, p, "Dependencies", d.as_str());
    } else if verbose {
        push_field(out, p, "Dependencies", "none");
    } else {
        assert(final(out)@ =~= old(out)@ + md_deps(*t, verbose, p@));
    }
}

fn push_md_details(out: &mut String, t: &Task, p: &str)
    ensures
        final(out)@ == old(out)@ + md_details(p@, t.details),
{
    match &t.details {
        Some(d) => {
            push_str(out, p);
            push_str(out, "Details:\n");
            push_str(out, d.as_str());
            let n = d.unicode_len();
            if !(n > 0 && d.get_char(n - 1) == '\n') {
                push_str(out, "\n");
            }
        },
        None => {},
    }
    assert(final(out)@ =~= old(out)@ + md_details(p@, t.details));
}

fn push_md_rest(out: &mut String, t: &Task, p: &str)
    ensures
        final(out)@ == old(out)@ + md_rest(*t, p@),
{
    let ghost s0 = out@;
    if t.tags.len() > 0 {
        let mut v = String::new();
        push_join_strs(&mut v, &t.tags, ", ");
        push_field(out, p, "Tags", v.as_str());
    }
    let ghost s1 = out@;
    push_opt_field(out, p, "Location", &t.location);
    push_opt_field(out, p, "Project", &t.project_name);
    push_md_details(out, t, p);
    push_str(out, "\n---\n\n");
    assert(final(out)@ =~= s0 + md_rest(*t, p@));
}

fn push_md_task(out: &mut String, t: &Task, verbose: bool, p: &str)
    requires
        p@ == md_prefix(verbose),
    ensures
        final(out)@ == old(out)@ + md_task(*t, verbose),
{
    push_md_head(out, t, p);
    push_md_deps(out, t, verbose, p);
    push_md_rest(out, t, p);
    assert(final(out)@ =~= old(out)@ + md_task(*t, verbose));
}

/// The markdown of `export-todo --format markdown`: a `# TODO` heading, then
/// each task's fields (as headings when verbose), separated by rules.
pub fn markdown_todo(tasks: &Vec<Task>, verbose: bool) -> (s: String)
    ensures
        s@ == "# TODO\n\n"@ + md_tasks(tasks@, verbose),
{
    let mut out = "# TODO\n\n".to_string();
    let p: &str = if verbose { "# " } else { "" };
    assert(p@ == md_prefix(verbose));
    let ghost head = out@;
    let mut i: usize = 0;
    while i < tasks.len()
        invariant
            i <= tasks@.len(),
            p@ == md_prefix(verbose),
            out@ == head + md_tasks(tasks@.take(i as int), verbose),
        decreases tasks@.len() - i,
    {
        push_md_task(&mut out, &tasks[i], verbose, p);
        assert(tasks@.take(i + 1).drop_last() =~= tasks@.take(i as int));
        assert(out@ =~= head + md_tasks(tasks@.take(i + 1), verbose));
        i = i + 1;
    }
    assert(tasks@.take(tasks@.len() as int) =~= tasks@);
    out
}

} // verus!
