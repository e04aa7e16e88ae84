//! Laws of the field-by-field merge of a task that both sides hold.
use vstd::prelude::*;
use crate::merge::{auto_count, base_priority, base_status, base_title, fields_equal_spec, merged_core_ok, merged_fields_ok, pick, MergedTask, RawTask};
use crate::listing::is_status_name;
use crate::status::rank_of;
use crate::strs::{opt_view, seq_view, text_or_empty, trim_newlines_start};

verus! {

/// The merged task carries the given side's fields (id, title, details,
/// status, priority, gate flag, location, project, client).
pub open spec fn takes_fields_of(m: MergedTask, x: RawTask) -> bool {
    &&& m.id == x.id
    &&& m.title@ == x.title@
    &&& opt_view(m.details) == opt_view(x.details)
    &&& m.status@ == x.status@
    &&& m.priority == x.priority
    &&& m.is_gate == x.is_gate
    &&& opt_view(m.location) == opt_view(x.location)
    &&& opt_view(m.project_name) == opt_view(x.project_name)
    &&& opt_view(m.implementation_client) == opt_view(x.implementation_client)
}

/// Law: a side that left a task as the ancestor had it yields to the other
/// side: the merge keeps every change the other side made, records no
/// conflict, and the tags are the union of both sides'.
pub proof fn law_unchanged_ours_yields(m: MergedTask, b: RawTask, o: RawTask, t: RawTask)
    requires
        merged_core_ok(m, Some(b), o, t),
        fields_equal_spec(o, b),
        o.id == b.id,
    ensures
        takes_fields_of(m, t),
        !m.conflict,
        seq_view(m.tags@).to_set() == seq_view(o.tags@).to_set() + seq_view(t.tags@).to_set(),
{
}

/// Law: the same, with the roles of the sides exchanged, except where ours
/// only traded missing details for empty ones (or the reverse): the merge
/// reads both as the same text and keeps theirs.
pub proof fn law_unchanged_theirs_yields(m: MergedTask, b: RawTask, o: RawTask, t: RawTask)
    requires
        merged_core_ok(m, Some(b), o, t),
        fields_equal_spec(t, b),
        t.id == b.id,
        opt_view(o.details) == opt_view(b.details)
            || text_or_empty(opt_view(o.details)) != text_or_empty(opt_view(b.details)),
    ensures
        takes_fields_of(m, o),
        !m.conflict,
{
}

/// Law: two sides that hold a task alike merge to it, timestamps included,
/// with no conflict, whether or not an ancestor is known.
pub proof fn law_identical_sides_merge_to_themselves(m: MergedTask, b: Option<RawTask>, o: RawTask, t: RawTask)
    requires
        merged_core_ok(m, b, o, t),
        fields_equal_spec(o, t),
        o.id == t.id,
        opt_view(o.started_at) == opt_view(t.started_at),
        opt_view(o.completed_at) == opt_view(t.completed_at),
    ensures
        takes_fields_of(m, o),
        opt_view(m.started_at) == opt_view(o.started_at),
        opt_view(m.completed_at) == opt_view(o.completed_at),
        !m.conflict,
{
    match opt_view(o.completed_at) {
        Some(x) => {
            assert(crate::text::lex_le(x, x));
        },
        None => {},
    }
}

/// Law: when both sides moved a task's status to different values, the
/// merge keeps the one further along (`done`/`rejected` over
/// `in-progress`/`partial` over `pending`), with its timestamps, and
/// records no conflict for it.
pub proof fn law_status_further_along_wins(m: MergedTask, b: Option<RawTask>, o: RawTask, t: RawTask)
    requires
        merged_core_ok(m, b, o, t),
        pick(base_status(b), o.status@, t.status@) is None,
    ensures
        m.status@ == o.status@ || m.status@ == t.status@,
        rank_of(m.status@) >= rank_of(o.status@),
        rank_of(m.status@) >= rank_of(t.status@),
        m.status@ == o.status@ ==> opt_view(m.started_at) == opt_view(o.started_at),
        m.status@ == t.status@ && m.status@ != o.status@ ==> opt_view(m.started_at) == opt_view(t.started_at),
{
}

/// Law: when both sides changed a task's priority to different values, the
/// merge keeps the more urgent one (the smaller number).
pub proof fn law_more_urgent_priority_wins(m: MergedTask, b: Option<RawTask>, o: RawTask, t: RawTask)
    requires
        merged_core_ok(m, b, o, t),
        pick(base_priority(b), o.priority, t.priority) is None,
    ensures
        m.priority == o.priority || m.priority == t.priority,
        m.priority <= o.priority,
        m.priority <= t.priority,
{
}

/// Law: a genuine clash on the title (both sides changed it, to different
/// titles) keeps ours and flags the task; the tags are still the union of
/// both sides'.
pub proof fn law_title_clash_keeps_ours_and_flags(m: MergedTask, b: Option<RawTask>, o: RawTask, t: RawTask)
    requires
        merged_core_ok(m, b, o, t),
        pick(base_title(b), o.title@, t.title@) is None,
    ensures
        m.title@ == o.title@,
        m.conflict,
        seq_view(m.tags@).to_set() == seq_view(o.tags@).to_set() + seq_view(t.tags@).to_set(),
{
}

/// Law: with an ancestor known and both statuses valid, swapping ours and
/// theirs gives the same status, priority, gate flag, tag, dependency and
/// related sets and conflict flag, and settles the same number of clashes
/// by rule. (Titles and other free-text fields differ only where a hard
/// clash keeps ours.)
pub proof fn law_swapping_sides_keeps_the_merge(m1: MergedTask, m2: MergedTask, b: RawTask, o: RawTask, t: RawTask)
    requires
        merged_fields_ok(m1, Some(b), o, t),
        merged_fields_ok(m2, Some(b), t, o),
        is_status_name(o.status@),
        is_status_name(t.status@),
    ensures
        m1.status@ == m2.status@,
        m1.priority == m2.priority,
        m1.is_gate == m2.is_gate,
        seq_view(m1.tags@).to_set() == seq_view(m2.tags@).to_set(),
        seq_view(m1.deps@).to_set() == seq_view(m2.deps@).to_set(),
        seq_view(m1.related@).to_set() == seq_view(m2.related@).to_set(),
        m1.conflict == m2.conflict,
        auto_count(Some(b), o, t) == auto_count(Some(b), t, o),
{
    reveal_strlit("pending");
    reveal_strlit("partial");
    reveal_strlit("in-progress");
    reveal_strlit("done");
    reveal_strlit("rejected");
    assert("pending"@.len() == 7 && "partial"@.len() == 7 && "in-progress"@.len() == 11);
    assert("done"@.len() == 4 && "rejected"@.len() == 8);
    assert("pending"@[1] != "partial"@[1]);
    let ou = seq_view(o.tags@).to_set();
    let tu = seq_view(t.tags@).to_set();
    assert(ou + tu =~= tu + ou);
    let od = seq_view(o.deps@).to_set();
    let td = seq_view(t.deps@).to_set();
    assert(od + td =~= td + od);
    let orl = seq_view(o.related@).to_set();
    let trl = seq_view(t.related@).to_set();
    assert(orl + trl =~= trl + orl);
}

/// Dropping the leading newline of a line break followed by text that does
/// not itself start with one gives that text.
proof fn lemma_trim_one_newline(x: Seq<char>)
    requires
        x.len() == 0 || x[0] != '\n',
    ensures
        trim_newlines_start(seq!['\n'] + x) == x,
{
    let s = seq!['\n'] + x;
    assert(s.drop_first() =~= x);
    assert(trim_newlines_start(s) == trim_newlines_start(x));
}

/// Law: when both sides appended a different line of text to the
/// ancestor's details, the merged details are the ancestor's text followed
/// by ours' appended part and then theirs', each on a line of its own
/// (neither side's addition is lost).
pub proof fn law_both_appended_details_keep_both_parts(
    m: MergedTask,
    b: RawTask,
    o: RawTask,
    t: RawTask,
    x: Seq<char>,
    y: Seq<char>,
)
    requires
        merged_core_ok(m, Some(b), o, t),
        x.len() > 0,
        x[0] != '\n',
        y.len() > 0,
        y[0] != '\n',
        x != y,
        opt_view(o.details) == Some(text_or_empty(opt_view(b.details)) + seq!['\n'] + x),
        opt_view(t.details) == Some(text_or_empty(opt_view(b.details)) + seq!['\n'] + y),
    ensures
        opt_view(m.details) == Some(
            if text_or_empty(opt_view(b.details)).len() > 0 {
                text_or_empty(opt_view(b.details)) + seq!['\n'] + x + seq!['\n'] + y
            } else {
                x + seq!['\n'] + y
            },
        ),
{
    let bd = text_or_empty(opt_view(b.details));
    let os = bd + seq!['\n'] + x;
    let ts = bd + seq!['\n'] + y;
    assert(os.take(bd.len() as int) =~= bd);
    assert(ts.take(bd.len() as int) =~= bd);
    assert(os.skip(bd.len() as int) =~= seq!['\n'] + x);
    assert(ts.skip(bd.len() as int) =~= seq!['\n'] + y);
    lemma_trim_one_newline(x);
    lemma_trim_one_newline(y);
    assert(os.len() > bd.len());
    assert(ts.len() > bd.len());
    assert(os != bd);
    assert(ts != bd);
    assert(os != ts) by {
        if os == ts {
            assert(x =~= os.skip(bd.len() as int + 1));
            assert(y =~= ts.skip(bd.len() as int + 1));
        }
    }
    if bd.len() > 0 {
        assert(bd.push('\n') + x =~= bd + seq!['\n'] + x);
        assert((bd.push('\n') + x).push('\n') + y =~= bd + seq!['\n'] + x + seq!['\n'] + y);
    } else {
        assert(bd + x =~= x);
        assert(x.push('\n') + y =~= x + seq!['\n'] + y);
    }
}

} // verus!
