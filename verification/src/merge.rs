//! The three-way merge of two task databases against an optional common
//! ancestor. Identity is each task's uuid: a uuid known to the ancestor is
//! reconciled field by field, a uuid new to one side is carried over, and a
//! uuid deleted on one side survives only if the other side changed it.
use vstd::prelude::*;
use crate::error::{CliError, is_system_error};
use crate::status::{rank_of, status_rank};
use crate::strs::{
    clone_opt, clone_strings, extend_unique, is_prefix, opt_eq, opt_view, or_empty, seq_view,
    strip_prefix, text_or_empty, trim_leading_newlines, trim_newlines_start,
};
use crate::text::{lex_le, push_char, push_str, str_eq, str_le};
use crate::graph::{acyclic, adj_rel, edge, graph_wf, lemma_acyclic_add_edge, lemma_reach_monotone, reach, reaches};

verus! {

/// One task row of an input database, with its tags and its dependency and
/// "see also" targets by uuid.
#[derive(Debug)]
pub struct RawTask {
    pub uuid: String,
    pub id: i64,
    pub title: String,
    pub details: Option<String>,
    pub status: String,
    pub priority: i64,
    pub is_gate: bool,
    pub created_at: String,
    pub started_at: Option<String>,
    pub completed_at: Option<String>,
    pub location: Option<String>,
    pub project_name: Option<String>,
    pub implementation_client: Option<String>,
    pub tags: Vec<String>,
    pub deps: Vec<String>,
    pub related: Vec<String>,
}

/// One task of the merged database.
#[derive(Debug)]
pub struct MergedTask {
    pub uuid: String,
    pub id: i64,
    pub title: String,
    pub details: Option<String>,
    pub status: String,
    pub priority: i64,
    pub is_gate: bool,
    pub created_at: String,
    pub started_at: Option<String>,
    pub completed_at: Option<String>,
    pub location: Option<String>,
    pub project_name: Option<String>,
    pub implementation_client: Option<String>,
    pub tags: Vec<String>,
    pub deps: Vec<String>,
    pub related: Vec<String>,
    /// A hard conflict was recorded for the task; it carries the
    /// `merge-conflict` tag in the merged database.
    pub conflict: bool,
}

/// A conflict the merge could not settle on its own.
#[derive(Debug)]
pub struct ConflictNote {
    pub task_id: i64,
    pub field: String,
    pub ours: String,
    pub theirs: String,
    pub resolution: String,
}

/// What a merge did.
#[derive(Debug)]
pub struct MergeReport {
    pub tasks_total: usize,
    pub carried_unchanged: usize,
    pub renumbered: usize,
    pub auto_resolved: usize,
    pub conflicts: Vec<ConflictNote>,
}

/// How a merge treats hard conflicts.
#[derive(Debug, Clone, Copy)]
pub struct MergeOptions {
    /// Abort (write nothing) on any hard conflict.
    pub strict: bool,
}

impl MergeReport {
    pub fn new() -> (r: MergeReport)
        ensures
            r.tasks_total == 0,
            r.carried_unchanged == 0,
            r.renumbered == 0,
            r.auto_resolved == 0,
            r.conflicts@.len() == 0,
    {
        MergeReport { tasks_total: 0, carried_unchanged: 0, renumbered: 0, auto_resolved: 0, conflicts: Vec::new() }
    }
}

/// The value a field takes when the two sides are compared against the
/// ancestor's value: equal sides agree; a side still equal to the ancestor
/// yields to the other; `None` when both sides changed it differently.
pub open spec fn pick<T>(b: Option<T>, o: T, t: T) -> Option<T> {
    if o == t {
        Some(o)
    } else if b == Some(o) {
        Some(t)
    } else if b == Some(t) {
        Some(o)
    } else {
        None
    }
}

pub open spec fn opt_task(b: Option<&RawTask>) -> Option<RawTask> {
    match b {
        Some(t) => Some(*t),
        None => None,
    }
}

/// The part of `changed` beyond `base`, when `changed` extends `base`, with
/// leading newlines dropped; otherwise all of `changed`.
pub open spec fn delta_spec(base: Seq<char>, changed: Seq<char>) -> Seq<char> {
    if is_prefix(base, changed) {
        trim_newlines_start(changed.skip(base.len() as int))
    } else {
        changed
    }
}

/// `base`, then each non-empty delta on a line of its own (the second only
/// when it differs from the first); `None` when that is empty.
pub open spec fn combine_spec(base: Seq<char>, od: Seq<char>, td: Seq<char>) -> Option<Seq<char>> {
    let c1 = if od.len() > 0 {
        (if base.len() > 0 { base.push('\n') } else { base }) + od
    } else {
        base
    };
    let c2 = if td.len() > 0 && td != od {
        (if c1.len() > 0 { c1.push('\n') } else { c1 }) + td
    } else {
        c1
    };
    if c2.len() == 0 { None } else { Some(c2) }
}

pub open spec fn base_details(b: Option<RawTask>) -> Seq<char> {
    match b {
        Some(t) => text_or_empty(opt_view(t.details)),
        None => Seq::empty(),
    }
}

/// Both sides changed the details text (against the ancestor's text, or the
/// empty text when there is none).
pub open spec fn details_both_changed(b: Option<RawTask>, o: RawTask, t: RawTask) -> bool {
    &&& opt_view(o.details) != opt_view(t.details)
    &&& text_or_empty(opt_view(o.details)) != base_details(b)
    &&& text_or_empty(opt_view(t.details)) != base_details(b)
}

/// Merged details: the changed side wins; when both changed, the ancestor
/// text followed by each side's appended part.
pub open spec fn merged_details(b: Option<RawTask>, o: RawTask, t: RawTask) -> Option<Seq<char>> {
    let bd = base_details(b);
    if opt_view(o.details) == opt_view(t.details) {
        opt_view(o.details)
    } else if text_or_empty(opt_view(o.details)) == bd {
        opt_view(t.details)
    } else if text_or_empty(opt_view(t.details)) == bd {
        opt_view(o.details)
    } else {
        combine_spec(
            bd,
            delta_spec(bd, text_or_empty(opt_view(o.details))),
            delta_spec(bd, text_or_empty(opt_view(t.details))),
        )
    }
}

pub open spec fn base_status(b: Option<RawTask>) -> Option<Seq<char>> {
    match b {
        Some(t) => Some(t.status@),
        None => None,
    }
}

/// Both sides moved the status to different values.
pub open spec fn status_both_changed(b: Option<RawTask>, o: RawTask, t: RawTask) -> bool {
    pick(base_status(b), o.status@, t.status@) is None
}

/// Whose status (with its start and completion times) the merge keeps: the
/// changed side; when both changed, the one further along, and on equal
/// rank in-progress over partial and done over rejected.
pub open spec fn status_takes_ours(b: Option<RawTask>, o: RawTask, t: RawTask) -> bool {
    let os = o.status@;
    let ts = t.status@;
    if os == ts {
        true
    } else if base_status(b) == Some(os) {
        false
    } else if base_status(b) == Some(ts) {
        true
    } else if rank_of(os) != rank_of(ts) {
        rank_of(os) > rank_of(ts)
    } else {
        os == "in-progress"@ || os == "done"@
    }
}

/// The earlier of two optional timestamps (by text order).
pub open spec fn earlier_spec(a: Option<Seq<char>>, b: Option<Seq<char>>) -> Option<Seq<char>> {
    match (a, b) {
        (Some(x), Some(y)) => Some(if lex_le(x, y) { x } else { y }),
        (Some(x), None) => Some(x),
        (None, Some(y)) => Some(y),
        (None, None) => None,
    }
}

pub open spec fn merged_completed(b: Option<RawTask>, o: RawTask, t: RawTask) -> Option<Seq<char>> {
    if o.status@ == "done"@ && t.status@ == "done"@ {
        earlier_spec(opt_view(o.completed_at), opt_view(t.completed_at))
    } else if status_takes_ours(b, o, t) {
        opt_view(o.completed_at)
    } else {
        opt_view(t.completed_at)
    }
}

pub open spec fn base_priority(b: Option<RawTask>) -> Option<i64> {
    match b {
        Some(t) => Some(t.priority),
        None => None,
    }
}

/// Merged priority: the changed side; the more urgent (lower) one when both
/// changed.
pub open spec fn merged_priority(b: Option<RawTask>, o: RawTask, t: RawTask) -> i64 {
    match pick(base_priority(b), o.priority, t.priority) {
        Some(p) => p,
        None => if o.priority <= t.priority { o.priority } else { t.priority },
    }
}

pub open spec fn base_id(b: Option<RawTask>) -> Option<i64> {
    match b {
        Some(t) => Some(t.id),
        None => None,
    }
}

/// Merged display id: the renumbered side; ours when both renumbered.
pub open spec fn merged_id(b: Option<RawTask>, o: RawTask, t: RawTask) -> i64 {
    match pick(base_id(b), o.id, t.id) {
        Some(p) => p,
        None => o.id,
    }
}

pub open spec fn base_title(b: Option<RawTask>) -> Option<Seq<char>> {
    match b {
        Some(t) => Some(t.title@),
        None => None,
    }
}

pub open spec fn base_gate(b: Option<RawTask>) -> Option<bool> {
    match b {
        Some(t) => Some(t.is_gate),
        None => None,
    }
}

pub open spec fn base_opt(b: Option<RawTask>, f: spec_fn(RawTask) -> Option<String>) -> Option<Option<Seq<char>>> {
    match b {
        Some(t) => Some(opt_view(f(t))),
        None => None,
    }
}

pub open spec fn title_conflict(b: Option<RawTask>, o: RawTask, t: RawTask) -> bool {
    pick(base_title(b), o.title@, t.title@) is None
}

pub open spec fn gate_conflict(b: Option<RawTask>, o: RawTask, t: RawTask) -> bool {
    pick(base_gate(b), o.is_gate, t.is_gate) is None
}

/// A free-text optional field merged like the title: the changed side wins,
/// and a clash keeps ours.
pub open spec fn merged_opt(b: Option<Option<Seq<char>>>, o: Option<Seq<char>>, t: Option<Seq<char>>) -> Option<Seq<char>> {
    match pick(b, o, t) {
        Some(v) => v,
        None => o,
    }
}

pub open spec fn loc_of(t: RawTask) -> Option<String> { t.location }
pub open spec fn proj_of(t: RawTask) -> Option<String> { t.project_name }
pub open spec fn client_of(t: RawTask) -> Option<String> { t.implementation_client }

pub open spec fn location_conflict(b: Option<RawTask>, o: RawTask, t: RawTask) -> bool {
    pick(base_opt(b, |x: RawTask| loc_of(x)), opt_view(o.location), opt_view(t.location)) is None
}

pub open spec fn project_conflict(b: Option<RawTask>, o: RawTask, t: RawTask) -> bool {
    pick(base_opt(b, |x: RawTask| proj_of(x)), opt_view(o.project_name), opt_view(t.project_name)) is None
}

pub open spec fn client_conflict(b: Option<RawTask>, o: RawTask, t: RawTask) -> bool {
    pick(base_opt(b, |x: RawTask| client_of(x)), opt_view(o.implementation_client), opt_view(t.implementation_client)) is None
}

/// Any hard conflict on the task: one that needs a person to settle it.
pub open spec fn hard_conflict(b: Option<RawTask>, o: RawTask, t: RawTask) -> bool {
    title_conflict(b, o, t) || gate_conflict(b, o, t) || location_conflict(b, o, t)
        || project_conflict(b, o, t) || client_conflict(b, o, t)
}

/// Number of clashes on the task that the merge settled by rule.
pub open spec fn auto_count(b: Option<RawTask>, o: RawTask, t: RawTask) -> nat {
    (if details_both_changed(b, o, t) { 1nat } else { 0nat })
        + (if status_both_changed(b, o, t) { 1nat } else { 0nat })
        + (if pick(base_priority(b), o.priority, t.priority) is None { 1nat } else { 0nat })
        + (if pick(base_id(b), o.id, t.id) is None { 1nat } else { 0nat })
}

/// The conflict note of one field: its name and the two values.
pub open spec fn note_is(n: ConflictNote, id: i64, field: Seq<char>, ours: Seq<char>, theirs: Seq<char>, resolution: Seq<char>) -> bool {
    n.task_id == id && n.field@ == field && n.ours@ == ours && n.theirs@ == theirs && n.resolution@ == resolution
}

pub open spec fn bool_text(b: bool) -> Seq<char> {
    if b { "true"@ } else { "false"@ }
}

/// The field names of the given hard conflicts, in the order the notes are
/// written.
pub open spec fn fields_from_flags(tc: bool, gc: bool, lc: bool, pc: bool, cc: bool) -> Seq<Seq<char>> {
    (if tc { seq!["title"@] } else { seq![] })
        + (if gc { seq!["is_gate"@] } else { seq![] })
        + (if lc { seq!["location"@] } else { seq![] })
        + (if pc { seq!["project_name"@] } else { seq![] })
        + (if cc { seq!["implementation_client"@] } else { seq![] })
}

/// The field names of the hard conflicts of a task, in the order the notes
/// are written.
pub open spec fn conflict_fields(b: Option<RawTask>, o: RawTask, t: RawTask) -> Seq<Seq<char>> {
    fields_from_flags(title_conflict(b, o, t), gate_conflict(b, o, t), location_conflict(b, o, t),
        project_conflict(b, o, t), client_conflict(b, o, t))
}

/// The values a note records for a field.
pub open spec fn note_values(o: RawTask, t: RawTask, field: Seq<char>) -> (Seq<char>, Seq<char>) {
    if field == "title"@ {
        (o.title@, t.title@)
    } else if field == "is_gate"@ {
        (bool_text(o.is_gate), bool_text(t.is_gate))
    } else if field == "location"@ {
        (text_or_empty(opt_view(o.location)), text_or_empty(opt_view(t.location)))
    } else if field == "project_name"@ {
        (text_or_empty(opt_view(o.project_name)), text_or_empty(opt_view(t.project_name)))
    } else {
        (text_or_empty(opt_view(o.implementation_client)), text_or_empty(opt_view(t.implementation_client)))
    }
}

/// The field-by-field merge of a task present on both sides (its
/// dependency and related lists aside).
pub open spec fn merged_core_ok(m: MergedTask, b: Option<RawTask>, o: RawTask, t: RawTask) -> bool {
    let takes_ours = status_takes_ours(b, o, t);
    &&& m.uuid@ == o.uuid@
    &&& m.id == merged_id(b, o, t)
    &&& m.title@ == (if title_conflict(b, o, t) { o.title@ } else { pick(base_title(b), o.title@, t.title@).unwrap() })
    &&& opt_view(m.details) == merged_details(b, o, t)
    &&& m.status@ == (if takes_ours { o.status@ } else { t.status@ })
    &&& opt_view(m.started_at) == (if takes_ours { opt_view(o.started_at) } else { opt_view(t.started_at) })
    &&& opt_view(m.completed_at) == merged_completed(b, o, t)
    &&& m.priority == merged_priority(b, o, t)
    &&& m.is_gate == (if gate_conflict(b, o, t) { o.is_gate } else { pick(base_gate(b), o.is_gate, t.is_gate).unwrap() })
    &&& m.created_at@ == (match b { Some(bt) => bt.created_at@, None => o.created_at@ })
    &&& opt_view(m.location) == merged_opt(base_opt(b, |x: RawTask| loc_of(x)), opt_view(o.location), opt_view(t.location))
    &&& opt_view(m.project_name) == merged_opt(base_opt(b, |x: RawTask| proj_of(x)), opt_view(o.project_name), opt_view(t.project_name))
    &&& opt_view(m.implementation_client) == merged_opt(base_opt(b, |x: RawTask| client_of(x)), opt_view(o.implementation_client), opt_view(t.implementation_client))
    &&& seq_view(m.tags@).no_duplicates()
    &&& seq_view(m.tags@).to_set() == seq_view(o.tags@).to_set() + seq_view(t.tags@).to_set()
    &&& m.conflict == hard_conflict(b, o, t)
}

/// The full field-by-field merge of a task present on both sides.
pub open spec fn merged_fields_ok(m: MergedTask, b: Option<RawTask>, o: RawTask, t: RawTask) -> bool {
    &&& merged_core_ok(m, b, o, t)
    &&& seq_view(m.deps@).no_duplicates()
    &&& seq_view(m.deps@).to_set() == seq_view(o.deps@).to_set() + seq_view(t.deps@).to_set()
    &&& seq_view(m.related@).no_duplicates()
    &&& seq_view(m.related@).to_set() == seq_view(o.related@).to_set() + seq_view(t.related@).to_set()
}

/// `delta_spec`, computed.
pub fn delta(base: &str, changed: &str) -> (r: String)
    ensures
        r@ == delta_spec(base@, changed@),
{
    match strip_prefix(changed, base) {
        Some(rest) => trim_leading_newlines(rest.as_str()),
        None => changed.to_string(),
    }
}

/// The earlier of two optional timestamps.
pub fn earlier(a: &Option<String>, b: &Option<String>) -> (r: Option<String>)
    ensures
        opt_view(r) == earlier_spec(opt_view(*a), opt_view(*b)),
{
    match (a, b) {
        (Some(x), Some(y)) => {
            if str_le(x.as_str(), y.as_str()) {
                Some(x.clone())
            } else {
                Some(y.clone())
            }
        },
        (Some(x), None) => Some(x.clone()),
        (None, Some(y)) => Some(y.clone()),
        (None, None) => None,
    }
}

fn combine(base: &String, od: &String, td: &String) -> (r: Option<String>)
    ensures
        opt_view(r) == combine_spec(base@, od@, td@),
{
    let mut c = base.clone();
    if od.unicode_len() > 0 {
        if c.unicode_len() > 0 {
            push_char(&mut c, '\n');
        }
        push_str(&mut c, od.as_str());
    }
    if td.unicode_len() > 0 && !str_eq(td.as_str(), od.as_str()) {
        if c.unicode_len() > 0 {
            push_char(&mut c, '\n');
        }
        push_str(&mut c, td.as_str());
    }
    if c.unicode_len() == 0 {
        None
    } else {
        Some(c)
    }
}

fn note(task_id: i64, field: &str, ours: String, theirs: String, resolution: &str) -> (n: ConflictNote)
    ensures
        note_is(n, task_id, field@, ours@, theirs@, resolution@),
{
    ConflictNote {
        task_id,
        field: field.to_string(),
        ours,
        theirs,
        resolution: resolution.to_string(),
    }
}

fn bool_string(b: bool) -> (s: String)
    ensures
        s@ == bool_text(b),
{
    if b { "true".to_string() } else { "false".to_string() }
}

/// Picks between two optional texts (see `pick`); `None` when both changed.
fn pick_opt(b: Option<&Option<String>>, o: &Option<String>, t: &Option<String>) -> (r: Option<Option<String>>)
    ensures
        match r {
            Some(v) => pick(match b { Some(x) => Some(opt_view(*x)), None => None }, opt_view(*o), opt_view(*t)) == Some(opt_view(v)),
            None => pick(match b { Some(x) => Some(opt_view(*x)), None => None }, opt_view(*o), opt_view(*t)) is None,
        },
{
    if opt_eq(o, t) {
        Some(clone_opt(o))
    } else {
        match b {
            Some(bv) => {
                if opt_eq(o, bv) {
                    Some(clone_opt(t))
                } else if opt_eq(t, bv) {
                    Some(clone_opt(o))
                } else {
                    None
                }
            },
            None => None,
        }
    }
}

fn pick_i64(b: Option<i64>, o: i64, t: i64) -> (r: Option<i64>)
    ensures
        r == pick(b, o, t),
{
    if o == t {
        Some(o)
    } else if b == Some(o) {
        Some(t)
    } else if b == Some(t) {
        Some(o)
    } else {
        None
    }
}

fn pick_bool(b: Option<bool>, o: bool, t: bool) -> (r: Option<bool>)
    ensures
        r == pick(b, o, t),
{
    if o == t {
        Some(o)
    } else if b == Some(o) {
        Some(t)
    } else if b == Some(t) {
        Some(o)
    } else {
        None
    }
}

fn pick_string(b: Option<&String>, o: &String, t: &String) -> (r: Option<String>)
    ensures
        match r {
            Some(v) => pick(match b { Some(x) => Some(x@), None => None }, o@, t@) == Some(v@),
            None => pick(match b { Some(x) => Some(x@), None => None }, o@, t@) is None,
        },
{
    if str_eq(o.as_str(), t.as_str()) {
        Some(o.clone())
    } else {
        match b {
            Some(bv) => {
                if str_eq(o.as_str(), bv.as_str()) {
                    Some(t.clone())
                } else if str_eq(t.as_str(), bv.as_str()) {
                    Some(o.clone())
                } else {
                    None
                }
            },
            None => None,
        }
    }
}


/// The set union of two lists, without repeats.
pub fn union_lists(a: &Vec<String>, b: &Vec<String>) -> (r: Vec<String>)
    ensures
        seq_view(r@).no_duplicates(),
        seq_view(r@).to_set() == seq_view(a@).to_set() + seq_view(b@).to_set(),
{
    let mut r: Vec<String> = Vec::new();
    assert(seq_view(r@).to_set() =~= Set::empty());
    extend_unique(&mut r, a);
    extend_unique(&mut r, b);
    assert(seq_view(r@).to_set() =~= seq_view(a@).to_set() + seq_view(b@).to_set());
    r
}

pub open spec fn notes_ok(notes: Seq<ConflictNote>, start: int, id: i64, o: RawTask, t: RawTask, fs: Seq<Seq<char>>) -> bool {
    &&& notes.len() == start + fs.len()
    &&& forall|k: int| 0 <= k < fs.len() ==> {
        let f = #[trigger] fs[k];
        note_is(notes[start + k], id, f, note_values(o, t, f).0, note_values(o, t, f).1, "kept ours"@)
    }
}

/// A conflict note as plain values: task id, field, ours, theirs, resolution.
pub open spec fn note_view(n: ConflictNote) -> (i64, Seq<char>, Seq<char>, Seq<char>, Seq<char>) {
    (n.task_id, n.field@, n.ours@, n.theirs@, n.resolution@)
}

pub open spec fn notes_view(ns: Seq<ConflictNote>) -> Seq<(i64, Seq<char>, Seq<char>, Seq<char>, Seq<char>)> {
    ns.map_values(|n: ConflictNote| note_view(n))
}

/// The notes of the hard field conflicts of a task present on both sides,
/// in the order they are written.
pub open spec fn field_notes(b: Option<RawTask>, o: RawTask, t: RawTask) -> Seq<(i64, Seq<char>, Seq<char>, Seq<char>, Seq<char>)> {
    conflict_fields(b, o, t).map_values(|f: Seq<char>|
        (merged_id(b, o, t), f, note_values(o, t, f).0, note_values(o, t, f).1, "kept ours"@))
}

proof fn lemma_notes_view(before: Seq<ConflictNote>, after: Seq<ConflictNote>, b: Option<RawTask>, o: RawTask, t: RawTask)
    requires
        notes_ok(after, before.len() as int, merged_id(b, o, t), o, t, conflict_fields(b, o, t)),
        forall|i: int| 0 <= i < before.len() ==> after[i] == before[i],
    ensures
        notes_view(after) == notes_view(before) + field_notes(b, o, t),
{
    let fs = conflict_fields(b, o, t);
    assert forall|k: int| 0 <= k < after.len() implies #[trigger] notes_view(after)[k] == (notes_view(before) + field_notes(b, o, t))[k] by {
        if k >= before.len() {
            let f = fs[k - before.len()];
            assert(note_is(after[before.len() + (k - before.len())], merged_id(b, o, t), f, note_values(o, t, f).0, note_values(o, t, f).1, "kept ours"@));
        }
    }
    assert(notes_view(after) =~= notes_view(before) + field_notes(b, o, t));
}

fn push_note_for(report: &mut MergeReport, id: i64, ours: &RawTask, theirs: &RawTask, field: &str, Ghost(start): Ghost<int>, Ghost(fs): Ghost<Seq<Seq<char>>>)
    requires
        start >= 0,
        notes_ok(old(report).conflicts@, start, id, *ours, *theirs, fs),
        field@ == "title"@ || field@ == "is_gate"@ || field@ == "location"@ || field@ == "project_name"@ || field@ == "implementation_client"@,
    ensures
        notes_ok(final(report).conflicts@, start, id, *ours, *theirs, fs.push(field@)),
        forall|i: int| 0 <= i < old(report).conflicts@.len() ==> final(report).conflicts@[i] == old(report).conflicts@[i],
        final(report).tasks_total == old(report).tasks_total,
        final(report).carried_unchanged == old(report).carried_unchanged,
        final(report).renumbered == old(report).renumbered,
        final(report).auto_resolved == old(report).auto_resolved,
{
    let (ov, tv) = if str_eq(field, "title") {
        (ours.title.clone(), theirs.title.clone())
    } else if str_eq(field, "is_gate") {
        (bool_string(ours.is_gate), bool_string(theirs.is_gate))
    } else if str_eq(field, "location") {
        (or_empty(&ours.location), or_empty(&theirs.location))
    } else if str_eq(field, "project_name") {
        (or_empty(&ours.project_name), or_empty(&theirs.project_name))
    } else {
        (or_empty(&ours.implementation_client), or_empty(&theirs.implementation_client))
    };
    let ghost before = report.conflicts@;
    let n = note(id, field, ov, tv, "kept ours");
    let ghost nn = n;
    report.conflicts.push(n);
    assert(report.conflicts@ == before.push(nn));
    assert forall|k: int| 0 <= k < fs.push(field@).len() implies {
        let f = #[trigger] fs.push(field@)[k];
        note_is(report.conflicts@[start + k], id, f, note_values(*ours, *theirs, f).0, note_values(*ours, *theirs, f).1, "kept ours"@)
    } by {
        if k < fs.len() {
            assert(fs.push(field@)[k] == fs[k]);
            assert(report.conflicts@[start + k] == before[start + k]);
        }
    }
}

fn push_notes(report: &mut MergeReport, id: i64, ours: &RawTask, theirs: &RawTask, tc: bool, gc: bool, lc: bool, pc: bool, cc: bool)
    ensures
        final(report).conflicts@.len() == old(report).conflicts@.len() + fields_from_flags(tc, gc, lc, pc, cc).len(),
        notes_ok(final(report).conflicts@, old(report).conflicts@.len() as int, id, *ours, *theirs, fields_from_flags(tc, gc, lc, pc, cc)),
        forall|i: int| 0 <= i < old(report).conflicts@.len() ==> final(report).conflicts@[i] == old(report).conflicts@[i],
        final(report).tasks_total == old(report).tasks_total,
        final(report).carried_unchanged == old(report).carried_unchanged,
        final(report).renumbered == old(report).renumbered,
        final(report).auto_resolved == old(report).auto_resolved,
{
    let ghost start = report.conflicts@.len() as int;
    let ghost orig = report.conflicts@;
    let ghost mut fs: Seq<Seq<char>> = Seq::empty();
    if tc {
        push_note_for(report, id, ours, theirs, "title", Ghost(start), Ghost(fs));
        proof { fs = fs.push("title"@); }
    }
    assert(fs =~= (if tc { seq!["title"@] } else { seq![] }));
    if gc {
        push_note_for(report, id, ours, theirs, "is_gate", Ghost(start), Ghost(fs));
        proof { fs = fs.push("is_gate"@); }
    }
    if lc {
        push_note_for(report, id, ours, theirs, "location", Ghost(start), Ghost(fs));
        proof { fs = fs.push("location"@); }
    }
    if pc {
        push_note_for(report, id, ours, theirs, "project_name", Ghost(start), Ghost(fs));
        proof { fs = fs.push("project_name"@); }
    }
    if cc {
        push_note_for(report, id, ours, theirs, "implementation_client", Ghost(start), Ghost(fs));
        proof { fs = fs.push("implementation_client"@); }
    }
    assert(fs =~= fields_from_flags(tc, gc, lc, pc, cc));
}

/// Field-by-field merge of a task present on both sides; `base` is the
/// ancestor's row when there is one. Settled clashes are counted in
/// `auto_resolved`; hard ones are noted in `conflicts` and keep ours.
#[verifier::rlimit(100)]
#[verifier::spinoff_prover]
pub fn merge_common(base: Option<&RawTask>, ours: &RawTask, theirs: &RawTask, report: &mut MergeReport) -> (m: MergedTask)
    requires
        old(report).auto_resolved + 4 <= usize::MAX,
    ensures
        merged_fields_ok(m, opt_task(base), *ours, *theirs),
        final(report).tasks_total == old(report).tasks_total,
        final(report).carried_unchanged == old(report).carried_unchanged,
        final(report).renumbered == old(report).renumbered,
        final(report).auto_resolved == old(report).auto_resolved + auto_count(opt_task(base), *ours, *theirs),
        final(report).conflicts@.len() == old(report).conflicts@.len() + conflict_fields(opt_task(base), *ours, *theirs).len(),
        forall|i: int| 0 <= i < old(report).conflicts@.len() ==> final(report).conflicts@[i] == old(report).conflicts@[i],
        notes_ok(final(report).conflicts@, old(report).conflicts@.len() as int, m.id, *ours, *theirs,
            conflict_fields(opt_task(base), *ours, *theirs)),
{
    let mut auto: usize = 0;

    // display id
    let id_pick = pick_i64(match base { Some(x) => Some(x.id), None => None }, ours.id, theirs.id);
    let id = match id_pick {
        Some(v) => v,
        None => { auto = auto + 1; ours.id },
    };

    // title
    let title_pick = pick_string(match base { Some(x) => Some(&x.title), None => None }, &ours.title, &theirs.title);
    let tc = title_pick.is_none();
    let title = match title_pick {
        Some(v) => v,
        None => ours.title.clone(),
    };

    // details
    let bd = match base {
        Some(x) => or_empty(&x.details),
        None => String::new(),
    };
    let od = or_empty(&ours.details);
    let td = or_empty(&theirs.details);
    let details = if opt_eq(&ours.details, &theirs.details) {
        clone_opt(&ours.details)
    } else if str_eq(od.as_str(), bd.as_str()) {
        clone_opt(&theirs.details)
    } else if str_eq(td.as_str(), bd.as_str()) {
        clone_opt(&ours.details)
    } else {
        auto = auto + 1;
        let odelta = delta(bd.as_str(), od.as_str());
        let tdelta = delta(bd.as_str(), td.as_str());
        combine(&bd, &odelta, &tdelta)
    };

    // status, with its timestamps following the chosen side
    let base_status: Option<&String> = match base { Some(x) => Some(&x.status), None => None };
    let take_ours = if str_eq(ours.status.as_str(), theirs.status.as_str()) {
        true
    } else if match base_status { Some(bs) => str_eq(ours.status.as_str(), bs.as_str()), None => false } {
        false
    } else if match base_status { Some(bs) => str_eq(theirs.status.as_str(), bs.as_str()), None => false } {
        true
    } else {
        auto = auto + 1;
        let orank = status_rank(ours.status.as_str());
        let trank = status_rank(theirs.status.as_str());
        if orank != trank {
            orank > trank
        } else {
            str_eq(ours.status.as_str(), "in-progress") || str_eq(ours.status.as_str(), "done")
        }
    };
    let (status, started_at, chosen_completed) = if take_ours {
        (ours.status.clone(), clone_opt(&ours.started_at), clone_opt(&ours.completed_at))
    } else {
        (theirs.status.clone(), clone_opt(&theirs.started_at), clone_opt(&theirs.completed_at))
    };
    let completed_at = if str_eq(ours.status.as_str(), "done") && str_eq(theirs.status.as_str(), "done") {
        earlier(&ours.completed_at, &theirs.completed_at)
    } else {
        chosen_completed
    };

    // priority: the more urgent one on a clash
    let priority = match pick_i64(match base { Some(x) => Some(x.priority), None => None }, ours.priority, theirs.priority) {
        Some(v) => v,
        None => {
            auto = auto + 1;
            if ours.priority <= theirs.priority { ours.priority } else { theirs.priority }
        },
    };

    // is_gate
    let gate_pick = pick_bool(match base { Some(x) => Some(x.is_gate), None => None }, ours.is_gate, theirs.is_gate);
    let gc = gate_pick.is_none();
    let is_gate = match gate_pick {
        Some(v) => v,
        None => ours.is_gate,
    };

    // free-text optional fields
    let loc_pick = pick_opt(match base { Some(x) => Some(&x.location), None => None }, &ours.location, &theirs.location);
    let lc = loc_pick.is_none();
    let location = match loc_pick {
        Some(v) => v,
        None => clone_opt(&ours.location),
    };
    let proj_pick = pick_opt(match base { Some(x) => Some(&x.project_name), None => None }, &ours.project_name, &theirs.project_name);
    let pc = proj_pick.is_none();
    let project_name = match proj_pick {
        Some(v) => v,
        None => clone_opt(&ours.project_name),
    };
    let client_pick = pick_opt(match base { Some(x) => Some(&x.implementation_client), None => None }, &ours.implementation_client, &theirs.implementation_client);
    let cc = client_pick.is_none();
    let implementation_client = match client_pick {
        Some(v) => v,
        None => clone_opt(&ours.implementation_client),
    };

    report.auto_resolved = report.auto_resolved + auto;
    push_notes(report, id, ours, theirs, tc, gc, lc, pc, cc);

    let created_at = match base {
        Some(x) => x.created_at.clone(),
        None => ours.created_at.clone(),
    };

    MergedTask {
        uuid: ours.uuid.clone(),
        id,
        title,
        details,
        status,
        priority,
        is_gate,
        created_at,
        started_at,
        completed_at,
        location,
        project_name,
        implementation_client,
        tags: union_lists(&ours.tags, &theirs.tags),
        deps: union_lists(&ours.deps, &theirs.deps),
        related: union_lists(&ours.related, &theirs.related),
        conflict: tc || gc || lc || pc || cc,
    }
}

/// The uuids of a task list are pairwise distinct (the uuid is the primary
/// key of the table the list is read from).
pub open spec fn uuids_distinct(s: Seq<RawTask>) -> bool {
    forall|i: int, j: int| 0 <= i < s.len() && 0 <= j < s.len() && i != j ==> s[i].uuid@ != s[j].uuid@
}

/// Some task of the list has uuid `u`.
pub open spec fn has_uuid(s: Seq<RawTask>, u: Seq<char>) -> bool {
    exists|i: int| 0 <= i < s.len() && #[trigger] s[i].uuid@ == u
}

/// The task of the list with uuid `u`.
pub open spec fn lookup(s: Seq<RawTask>, u: Seq<char>) -> RawTask {
    s[choose|i: int| 0 <= i < s.len() && #[trigger] s[i].uuid@ == u]
}

pub proof fn lemma_lookup(s: Seq<RawTask>, i: int)
    requires
        uuids_distinct(s),
        0 <= i < s.len(),
    ensures
        has_uuid(s, s[i].uuid@),
        lookup(s, s[i].uuid@) == s[i],
{
    assert(s[i].uuid@ == s[i].uuid@);
    let j = choose|j: int| 0 <= j < s.len() && #[trigger] s[j].uuid@ == s[i].uuid@;
    assert(j == i);
}

/// The fields a side may modify all still equal the ancestor's.
pub open spec fn fields_equal_spec(a: RawTask, b: RawTask) -> bool {
    &&& a.title@ == b.title@
    &&& opt_view(a.details) == opt_view(b.details)
    &&& a.status@ == b.status@
    &&& a.priority == b.priority
    &&& a.is_gate == b.is_gate
    &&& opt_view(a.location) == opt_view(b.location)
    &&& opt_view(a.project_name) == opt_view(b.project_name)
    &&& opt_view(a.implementation_client) == opt_view(b.implementation_client)
}

/// A task carried over unchanged from one side (its dependency and related
/// lists aside).
pub open spec fn carried_core_ok(m: MergedTask, x: RawTask, conflict: bool) -> bool {
    &&& m.uuid@ == x.uuid@
    &&& m.id == x.id
    &&& m.title@ == x.title@
    &&& opt_view(m.details) == opt_view(x.details)
    &&& m.status@ == x.status@
    &&& opt_view(m.started_at) == opt_view(x.started_at)
    &&& opt_view(m.completed_at) == opt_view(x.completed_at)
    &&& m.priority == x.priority
    &&& m.is_gate == x.is_gate
    &&& m.created_at@ == x.created_at@
    &&& opt_view(m.location) == opt_view(x.location)
    &&& opt_view(m.project_name) == opt_view(x.project_name)
    &&& opt_view(m.implementation_client) == opt_view(x.implementation_client)
    &&& seq_view(m.tags@).no_duplicates()
    &&& seq_view(m.tags@).to_set() == seq_view(x.tags@).to_set()
    &&& m.conflict == conflict
}

/// A task carried over unchanged from one side.
pub open spec fn carried_ok(m: MergedTask, x: RawTask, conflict: bool) -> bool {
    &&& carried_core_ok(m, x, conflict)
    &&& seq_view(m.deps@).no_duplicates()
    &&& seq_view(m.deps@).to_set() == seq_view(x.deps@).to_set()
    &&& seq_view(m.related@).no_duplicates()
    &&& seq_view(m.related@).to_set() == seq_view(x.related@).to_set()
}

/// Whether the merge keeps the task with uuid `u`: a task the ancestor knew
/// survives when both sides kept it, or when the one side that kept it
/// changed it (a deletion of an unchanged task wins); a task the ancestor
/// did not know survives when either side has it.
pub open spec fn kept(base: Seq<RawTask>, ours: Seq<RawTask>, theirs: Seq<RawTask>, u: Seq<char>) -> bool {
    if has_uuid(base, u) {
        let b = lookup(base, u);
        ||| has_uuid(ours, u) && has_uuid(theirs, u)
        ||| has_uuid(ours, u) && !has_uuid(theirs, u) && !fields_equal_spec(b, lookup(ours, u))
        ||| !has_uuid(ours, u) && has_uuid(theirs, u) && !fields_equal_spec(b, lookup(theirs, u))
    } else {
        has_uuid(ours, u) || has_uuid(theirs, u)
    }
}

/// The merged task `m` (dependency and related lists aside) is what the
/// merge rules give for its uuid.
pub open spec fn node_core_ok(m: MergedTask, base: Seq<RawTask>, ours: Seq<RawTask>, theirs: Seq<RawTask>) -> bool {
    let u = m.uuid@;
    if has_uuid(base, u) {
        let b = lookup(base, u);
        if has_uuid(ours, u) && has_uuid(theirs, u) {
            merged_core_ok(m, Some(b), lookup(ours, u), lookup(theirs, u))
        } else if has_uuid(ours, u) {
            carried_core_ok(m, lookup(ours, u), true)
        } else if has_uuid(theirs, u) {
            carried_core_ok(m, lookup(theirs, u), true)
        } else {
            false
        }
    } else if has_uuid(ours, u) && has_uuid(theirs, u) {
        merged_core_ok(m, None, lookup(ours, u), lookup(theirs, u))
    } else if has_uuid(ours, u) {
        carried_core_ok(m, lookup(ours, u), false)
    } else if has_uuid(theirs, u) {
        carried_core_ok(m, lookup(theirs, u), false)
    } else {
        false
    }
}

/// The merged task `m`, with its unfiltered dependency and related lists, is
/// what the merge rules give for its uuid.
pub open spec fn node_ok(m: MergedTask, base: Seq<RawTask>, ours: Seq<RawTask>, theirs: Seq<RawTask>) -> bool {
    let u = m.uuid@;
    if has_uuid(base, u) {
        let b = lookup(base, u);
        if has_uuid(ours, u) && has_uuid(theirs, u) {
            merged_fields_ok(m, Some(b), lookup(ours, u), lookup(theirs, u))
        } else if has_uuid(ours, u) {
            carried_ok(m, lookup(ours, u), true)
        } else if has_uuid(theirs, u) {
            carried_ok(m, lookup(theirs, u), true)
        } else {
            false
        }
    } else if has_uuid(ours, u) && has_uuid(theirs, u) {
        merged_fields_ok(m, None, lookup(ours, u), lookup(theirs, u))
    } else if has_uuid(ours, u) {
        carried_ok(m, lookup(ours, u), false)
    } else if has_uuid(theirs, u) {
        carried_ok(m, lookup(theirs, u), false)
    } else {
        false
    }
}

/// The clashes settled by rule on the first `n` ancestor tasks that both
/// sides still hold.
pub open spec fn auto_of_base(base: Seq<RawTask>, ours: Seq<RawTask>, theirs: Seq<RawTask>, n: int) -> nat
    decreases n,
{
    if n <= 0 {
        0
    } else {
        let u = base[n - 1].uuid@;
        auto_of_base(base, ours, theirs, n - 1)
            + if has_uuid(ours, u) && has_uuid(theirs, u) { auto_count(Some(base[n - 1]), lookup(ours, u), lookup(theirs, u)) } else { 0 }
    }
}

/// The clashes settled by rule on the first `n` tasks of ours that the
/// ancestor does not know and theirs holds too.
pub open spec fn auto_of_new(ours: Seq<RawTask>, base: Seq<RawTask>, theirs: Seq<RawTask>, n: int) -> nat
    decreases n,
{
    if n <= 0 {
        0
    } else {
        let u = ours[n - 1].uuid@;
        auto_of_new(ours, base, theirs, n - 1)
            + if !has_uuid(base, u) && has_uuid(theirs, u) { auto_count(None, ours[n - 1], lookup(theirs, u)) } else { 0 }
    }
}

proof fn lemma_auto_bounds(base: Seq<RawTask>, ours: Seq<RawTask>, theirs: Seq<RawTask>, n: int)
    requires
        n >= 0,
    ensures
        auto_of_base(base, ours, theirs, n) <= 4 * n,
        auto_of_new(ours, base, theirs, n) <= 4 * n,
    decreases n,
{
    if n > 0 {
        lemma_auto_bounds(base, ours, theirs, n - 1);
    }
}

/// Number of tasks of `s` whose uuid is in none of `not_in`.
pub open spec fn count_new(s: Seq<RawTask>, not_in1: Seq<RawTask>, not_in2: Seq<RawTask>) -> nat
    decreases s.len(),
{
    if s.len() == 0 {
        0
    } else {
        count_new(s.drop_last(), not_in1, not_in2)
            + (if !has_uuid(not_in1, s.last().uuid@) && !has_uuid(not_in2, s.last().uuid@) { 1nat } else { 0nat })
    }
}

/// Position of the task with uuid `u`.
pub fn find_uuid(v: &Vec<RawTask>, u: &String) -> (r: Option<usize>)
    ensures
        match r {
            Some(i) => i < v@.len() && v@[i as int].uuid@ == u@,
            None => !has_uuid(v@, u@),
        },
{
    let mut i: usize = 0;
    while i < v.len()
        invariant
            i <= v@.len(),
            forall|j: int| 0 <= j < i ==> v@[j].uuid@ != u@,
        decreases v@.len() - i,
    {
        if str_eq(v[i].uuid.as_str(), u.as_str()) {
            return Some(i);
        }
        i = i + 1;
    }
    None
}

/// Whether two rows agree on every field a side may modify.
pub fn fields_equal(a: &RawTask, b: &RawTask) -> (r: bool)
    ensures
        r == fields_equal_spec(*a, *b),
{
    str_eq(a.title.as_str(), b.title.as_str())
        && opt_eq(&a.details, &b.details)
        && str_eq(a.status.as_str(), b.status.as_str())
        && a.priority == b.priority
        && a.is_gate == b.is_gate
        && opt_eq(&a.location, &b.location)
        && opt_eq(&a.project_name, &b.project_name)
        && opt_eq(&a.implementation_client, &b.implementation_client)
}

/// A row carried over as-is.
pub fn raw_to_merged(t: &RawTask, conflict: bool) -> (m: MergedTask)
    ensures
        carried_ok(m, *t, conflict),
{
    let empty: Vec<String> = Vec::new();
    assert(seq_view(empty@).to_set() =~= Set::empty());
    assert(seq_view(t.tags@).to_set() + seq_view(empty@).to_set() =~= seq_view(t.tags@).to_set());
    assert(seq_view(t.deps@).to_set() + seq_view(empty@).to_set() =~= seq_view(t.deps@).to_set());
    assert(seq_view(t.related@).to_set() + seq_view(empty@).to_set() =~= seq_view(t.related@).to_set());
    MergedTask {
        uuid: t.uuid.clone(),
        id: t.id,
        title: t.title.clone(),
        details: clone_opt(&t.details),
        status: t.status.clone(),
        priority: t.priority,
        is_gate: t.is_gate,
        created_at: t.created_at.clone(),
        started_at: clone_opt(&t.started_at),
        completed_at: clone_opt(&t.completed_at),
        location: clone_opt(&t.location),
        project_name: clone_opt(&t.project_name),
        implementation_client: clone_opt(&t.implementation_client),
        tags: union_lists(&t.tags, &empty),
        deps: union_lists(&t.deps, &empty),
        related: union_lists(&t.related, &empty),
        conflict,
    }
}

/// The uuids of the merged list are pairwise distinct.
pub open spec fn merged_distinct(s: Seq<MergedTask>) -> bool {
    forall|i: int, j: int| 0 <= i < s.len() && 0 <= j < s.len() && i != j ==> s[i].uuid@ != s[j].uuid@
}

pub open spec fn merged_has(s: Seq<MergedTask>, u: Seq<char>) -> bool {
    exists|k: int| 0 <= k < s.len() && #[trigger] s[k].uuid@ == u
}

/// No merged task carries a hard conflict.
pub open spec fn no_conflict(s: Seq<MergedTask>) -> bool {
    forall|k: int| 0 <= k < s.len() ==> !(#[trigger] s[k]).conflict
}

/// The note of a task deleted on one side and changed on the other.
pub open spec fn existence_note_view(id: i64, ours_deleted: bool) -> (i64, Seq<char>, Seq<char>, Seq<char>, Seq<char>) {
    if ours_deleted {
        (id, "existence"@, "deleted"@, "modified"@, "kept theirs (modified) over ours' deletion"@)
    } else {
        (id, "existence"@, "modified"@, "deleted"@, "kept ours (modified) over theirs' deletion"@)
    }
}

fn existence_note(report: &mut MergeReport, id: i64, ours_deleted: bool)
    ensures
        notes_view(final(report).conflicts@) == notes_view(old(report).conflicts@).push(existence_note_view(id, ours_deleted)),
        final(report).conflicts@.len() == old(report).conflicts@.len() + 1,
        forall|i: int| 0 <= i < old(report).conflicts@.len() ==> final(report).conflicts@[i] == old(report).conflicts@[i],
        final(report).tasks_total == old(report).tasks_total,
        final(report).carried_unchanged == old(report).carried_unchanged,
        final(report).renumbered == old(report).renumbered,
        final(report).auto_resolved == old(report).auto_resolved,
{
    let n = if ours_deleted {
        note(id, "existence", "deleted".to_string(), "modified".to_string(), "kept theirs (modified) over ours' deletion")
    } else {
        note(id, "existence", "modified".to_string(), "deleted".to_string(), "kept ours (modified) over theirs' deletion")
    };
    let ghost before = report.conflicts@;
    report.conflicts.push(n);
    assert(notes_view(report.conflicts@) =~= notes_view(before).push(existence_note_view(id, ours_deleted)));
}

/// The notes written for the `i`-th ancestor task: its field conflicts when
/// both sides hold it, a note when one side deleted it and the other
/// changed it, none otherwise.
pub open spec fn base_task_notes(base: Seq<RawTask>, ours: Seq<RawTask>, theirs: Seq<RawTask>, i: int) -> Seq<(i64, Seq<char>, Seq<char>, Seq<char>, Seq<char>)> {
    let b = base[i];
    let u = b.uuid@;
    if has_uuid(ours, u) && has_uuid(theirs, u) {
        field_notes(Some(b), lookup(ours, u), lookup(theirs, u))
    } else if has_uuid(theirs, u) && !fields_equal_spec(b, lookup(theirs, u)) {
        seq![existence_note_view(lookup(theirs, u).id, true)]
    } else if has_uuid(ours, u) && !has_uuid(theirs, u) && !fields_equal_spec(b, lookup(ours, u)) {
        seq![existence_note_view(lookup(ours, u).id, false)]
    } else {
        Seq::empty()
    }
}

/// The notes written for the first `n` ancestor tasks, in order.
pub open spec fn base_notes(base: Seq<RawTask>, ours: Seq<RawTask>, theirs: Seq<RawTask>, n: int) -> Seq<(i64, Seq<char>, Seq<char>, Seq<char>, Seq<char>)>
    decreases n,
{
    if n <= 0 {
        Seq::empty()
    } else {
        base_notes(base, ours, theirs, n - 1) + base_task_notes(base, ours, theirs, n - 1)
    }
}

/// The notes written for the `i`-th task of ours when the ancestor does not
/// know it: the field conflicts with theirs' task of the same uuid.
pub open spec fn new_task_notes(ours: Seq<RawTask>, base: Seq<RawTask>, theirs: Seq<RawTask>, i: int) -> Seq<(i64, Seq<char>, Seq<char>, Seq<char>, Seq<char>)> {
    let o = ours[i];
    if !has_uuid(base, o.uuid@) && has_uuid(theirs, o.uuid@) {
        field_notes(None, o, lookup(theirs, o.uuid@))
    } else {
        Seq::empty()
    }
}

pub open spec fn new_notes(ours: Seq<RawTask>, base: Seq<RawTask>, theirs: Seq<RawTask>, n: int) -> Seq<(i64, Seq<char>, Seq<char>, Seq<char>, Seq<char>)>
    decreases n,
{
    if n <= 0 {
        Seq::empty()
    } else {
        new_notes(ours, base, theirs, n - 1) + new_task_notes(ours, base, theirs, n - 1)
    }
}

/// Every note a merge writes, in order: the ancestor's tasks first, then
/// the tasks new in ours.
pub open spec fn merge_notes(base: Seq<RawTask>, ours: Seq<RawTask>, theirs: Seq<RawTask>) -> Seq<(i64, Seq<char>, Seq<char>, Seq<char>, Seq<char>)> {
    base_notes(base, ours, theirs, base.len() as int) + new_notes(ours, base, theirs, ours.len() as int)
}

/// Builds the merged task list (dependency and related lists still the
/// unfiltered unions): every task the rules keep appears exactly once,
/// merged by the rules for its uuid.
#[verifier::rlimit(60)]
pub fn merge_nodes(base: &Vec<RawTask>, ours: &Vec<RawTask>, theirs: &Vec<RawTask>, report: &mut MergeReport) -> (out: Vec<MergedTask>)
    requires
        uuids_distinct(base@),
        uuids_distinct(ours@),
        uuids_distinct(theirs@),
        old(report).tasks_total + base@.len() + ours@.len() + theirs@.len() <= usize::MAX,
        old(report).carried_unchanged + ours@.len() + theirs@.len() <= usize::MAX,
        old(report).auto_resolved + 4 * (base@.len() + ours@.len() + theirs@.len()) <= usize::MAX,
    ensures
        merged_distinct(out@),
        forall|k: int| 0 <= k < out@.len() ==> node_ok(#[trigger] out@[k], base@, ours@, theirs@) && kept(base@, ours@, theirs@, out@[k].uuid@),
        forall|u: Seq<char>| kept(base@, ours@, theirs@, u) ==> merged_has(out@, u),
        final(report).tasks_total == old(report).tasks_total + base@.len() + count_new(ours@, base@, base@) + count_new(theirs@, base@, ours@),
        final(report).carried_unchanged == old(report).carried_unchanged + count_new(ours@, base@, theirs@) + count_new(theirs@, base@, ours@),
        final(report).renumbered == old(report).renumbered,
        final(report).auto_resolved == old(report).auto_resolved + auto_of_base(base@, ours@, theirs@, base@.len() as int)
            + auto_of_new(ours@, base@, theirs@, ours@.len() as int),
        final(report).conflicts@.len() >= old(report).conflicts@.len(),
        forall|i: int| 0 <= i < old(report).conflicts@.len() ==> final(report).conflicts@[i] == old(report).conflicts@[i],
        notes_view(final(report).conflicts@) == notes_view(old(report).conflicts@) + merge_notes(base@, ours@, theirs@),
        (final(report).conflicts@.len() == old(report).conflicts@.len()) == no_conflict(out@),
{
    let ghost r0 = *report;
    proof { lemma_auto_bounds(base@, ours@, theirs@, base@.len() as int); lemma_auto_bounds(base@, ours@, theirs@, ours@.len() as int); }
    let mut out: Vec<MergedTask> = Vec::new();

    // 1. tasks the ancestor knows
    let mut i: usize = 0;
    while i < base.len()
        invariant
            uuids_distinct(base@),
            uuids_distinct(ours@),
            uuids_distinct(theirs@),
            i <= base@.len(),
            r0.tasks_total + base@.len() + ours@.len() + theirs@.len() <= usize::MAX,
            r0.auto_resolved + 4 * (base@.len() + ours@.len() + theirs@.len()) <= usize::MAX,
            report.tasks_total == r0.tasks_total + i,
            report.carried_unchanged == r0.carried_unchanged,
            report.renumbered == r0.renumbered,
            report.auto_resolved == r0.auto_resolved + auto_of_base(base@, ours@, theirs@, i as int),
            auto_of_base(base@, ours@, theirs@, i as int) <= 4 * i,
            report.conflicts@.len() >= r0.conflicts@.len(),
            forall|x: int| 0 <= x < r0.conflicts@.len() ==> report.conflicts@[x] == r0.conflicts@[x],
            notes_view(report.conflicts@) == notes_view(r0.conflicts@) + base_notes(base@, ours@, theirs@, i as int),
            (report.conflicts@.len() == r0.conflicts@.len()) == no_conflict(out@),
            merged_distinct(out@),
            forall|k: int| 0 <= k < out@.len() ==> node_ok(#[trigger] out@[k], base@, ours@, theirs@) && kept(base@, ours@, theirs@, out@[k].uuid@),
            forall|k: int| #![trigger out@[k]] 0 <= k < out@.len() ==> exists|j: int| 0 <= j < i && #[trigger] base@[j].uuid@ == out@[k].uuid@,
            forall|j: int| 0 <= j < i && kept(base@, ours@, theirs@, #[trigger] base@[j].uuid@) ==> merged_has(out@, base@[j].uuid@),
        decreases base@.len() - i,
    {
        let bt = &base[i];
        proof { lemma_lookup(base@, i as int); }
        let oi = find_uuid(ours, &bt.uuid);
        let ti = find_uuid(theirs, &bt.uuid);
        let ghost u = bt.uuid@;
        let ghost out0 = out@;
        let ghost c0 = report.conflicts@.len();
        let ghost notes0 = report.conflicts@;
        let mut added = false;
        match (oi, ti) {
            (Some(o), Some(t)) => {
                proof {
                    lemma_lookup(ours@, o as int);
                    lemma_lookup(theirs@, t as int);
                    lemma_auto_bounds(base@, ours@, theirs@, i as int);
                }
                let m = merge_common(Some(bt), &ours[o], &theirs[t], report);
                proof {
                    lemma_notes_view(notes0, report.conflicts@, Some(*bt), ours@[o as int], theirs@[t as int]);
                }
                out.push(m);
                added = true;
            },
            (None, Some(t)) => {
                proof { lemma_lookup(theirs@, t as int); }
                if !fields_equal(bt, &theirs[t]) {
                    existence_note(report, theirs[t].id, true);
                    out.push(raw_to_merged(&theirs[t], true));
                    added = true;
                }
            },
            (Some(o), None) => {
                proof { lemma_lookup(ours@, o as int); }
                if !fields_equal(bt, &ours[o]) {
                    existence_note(report, ours[o].id, false);
                    out.push(raw_to_merged(&ours[o], true));
                    added = true;
                }
            },
            (None, None) => {},
        }
        report.tasks_total = report.tasks_total + 1;
        proof {
            assert(notes_view(report.conflicts@) =~= notes_view(notes0) + base_task_notes(base@, ours@, theirs@, i as int));
            assert(notes_view(report.conflicts@) =~= notes_view(r0.conflicts@) + base_notes(base@, ours@, theirs@, i + 1));
            if added {
                assert(out@.len() == out0.len() + 1);
                assert(out@[out0.len() as int].uuid@ == u);
                assert forall|k: int| #![trigger out@[k]] 0 <= k < out@.len() implies exists|j: int| 0 <= j < i + 1 && #[trigger] base@[j].uuid@ == out@[k].uuid@ by {
                    if k < out0.len() {
                        assert(out@[k] == out0[k]);
                    } else {
                        assert(base@[i as int].uuid@ == out@[k].uuid@);
                    }
                }
                assert forall|a: int, b: int| 0 <= a < out@.len() && 0 <= b < out@.len() && a != b implies out@[a].uuid@ != out@[b].uuid@ by {
                    if a < out0.len() && b < out0.len() {
                        assert(out@[a] == out0[a] && out@[b] == out0[b]);
                    } else if a < out0.len() {
                        assert(out@[a] == out0[a]);
                        let j = choose|j: int| 0 <= j < i && #[trigger] base@[j].uuid@ == out0[a].uuid@;
                    } else if b < out0.len() {
                        assert(out@[b] == out0[b]);
                        let j = choose|j: int| 0 <= j < i && #[trigger] base@[j].uuid@ == out0[b].uuid@;
                    }
                }
                assert(merged_has(out@, u));
                assert forall|j: int| 0 <= j < i + 1 && kept(base@, ours@, theirs@, #[trigger] base@[j].uuid@) implies merged_has(out@, base@[j].uuid@) by {
                    if j < i {
                        let k = choose|k: int| 0 <= k < out0.len() && #[trigger] out0[k].uuid@ == base@[j].uuid@;
                        assert(out@[k] == out0[k]);
                    }
                }
            } else {
                assert(out@ == out0);
                assert(!kept(base@, ours@, theirs@, u));
            }
        }
        i = i + 1;
    }

    // 2. tasks new in ours (merged with theirs when theirs has the same uuid)
    let nb = base.len();
    assert(ours@.take(0) =~= Seq::<RawTask>::empty());
    let mut i: usize = 0;
    while i < ours.len()
        invariant
            uuids_distinct(base@),
            uuids_distinct(ours@),
            uuids_distinct(theirs@),
            nb == base@.len(),
            i <= ours@.len(),
            r0.tasks_total + base@.len() + ours@.len() + theirs@.len() <= usize::MAX,
            r0.carried_unchanged + ours@.len() + theirs@.len() <= usize::MAX,
            r0.auto_resolved + 4 * (base@.len() + ours@.len() + theirs@.len()) <= usize::MAX,
            report.tasks_total == r0.tasks_total + nb + count_new(ours@.take(i as int), base@, base@),
            report.carried_unchanged == r0.carried_unchanged + count_new(ours@.take(i as int), base@, theirs@),
            count_new(ours@.take(i as int), base@, base@) <= i,
            count_new(ours@.take(i as int), base@, theirs@) <= i,
            report.renumbered == r0.renumbered,
            report.auto_resolved == r0.auto_resolved + auto_of_base(base@, ours@, theirs@, nb as int) + auto_of_new(ours@, base@, theirs@, i as int),
            auto_of_base(base@, ours@, theirs@, nb as int) <= 4 * nb,
            auto_of_new(ours@, base@, theirs@, i as int) <= 4 * i,
            report.conflicts@.len() >= r0.conflicts@.len(),
            forall|x: int| 0 <= x < r0.conflicts@.len() ==> report.conflicts@[x] == r0.conflicts@[x],
            notes_view(report.conflicts@) == notes_view(r0.conflicts@) + base_notes(base@, ours@, theirs@, nb as int)
                + new_notes(ours@, base@, theirs@, i as int),
            (report.conflicts@.len() == r0.conflicts@.len()) == no_conflict(out@),
            merged_distinct(out@),
            forall|k: int| 0 <= k < out@.len() ==> node_ok(#[trigger] out@[k], base@, ours@, theirs@) && kept(base@, ours@, theirs@, out@[k].uuid@),
            forall|k: int| #![trigger out@[k]] 0 <= k < out@.len() ==> has_uuid(base@, out@[k].uuid@)
                || exists|j: int| 0 <= j < i && #[trigger] ours@[j].uuid@ == out@[k].uuid@,
            forall|j: int| 0 <= j < nb && kept(base@, ours@, theirs@, #[trigger] base@[j].uuid@) ==> merged_has(out@, base@[j].uuid@),
            forall|j: int| 0 <= j < i && !has_uuid(base@, #[trigger] ours@[j].uuid@) ==> merged_has(out@, ours@[j].uuid@),
        decreases ours@.len() - i,
    {
        let ot = &ours[i];
        proof { lemma_lookup(ours@, i as int); }
        let ghost u = ot.uuid@;
        let ghost out0 = out@;
        let ghost notes0 = report.conflicts@;
        let in_base = find_uuid(base, &ot.uuid);
        let mut added = false;
        let mut one_sided = false;
        if in_base.is_none() {
            match find_uuid(theirs, &ot.uuid) {
                Some(t) => {
                    proof { lemma_lookup(theirs@, t as int); lemma_auto_bounds(base@, ours@, theirs@, i as int); }
                    let m = merge_common(None, ot, &theirs[t], report);
                    proof { lemma_notes_view(notes0, report.conflicts@, None, *ot, theirs@[t as int]); }
                    out.push(m);
                },
                None => {
                    out.push(raw_to_merged(ot, false));
                    report.carried_unchanged = report.carried_unchanged + 1;
                    one_sided = true;
                },
            }
            report.tasks_total = report.tasks_total + 1;
            added = true;
        }
        proof {
            assert(notes_view(report.conflicts@) =~= notes_view(notes0) + new_task_notes(ours@, base@, theirs@, i as int));
            assert(notes_view(report.conflicts@) =~= notes_view(r0.conflicts@) + base_notes(base@, ours@, theirs@, nb as int)
                + new_notes(ours@, base@, theirs@, i + 1));
            let tk = ours@.take(i + 1);
            assert(tk.drop_last() =~= ours@.take(i as int));
            assert(tk.last() == ours@[i as int]);
            if added {
                assert(out@.len() == out0.len() + 1);
                assert(out@[out0.len() as int].uuid@ == u);
                assert(!has_uuid(base@, u));
                assert forall|k: int| #![trigger out@[k]] 0 <= k < out@.len() implies has_uuid(base@, out@[k].uuid@)
                    || exists|j: int| 0 <= j < i + 1 && #[trigger] ours@[j].uuid@ == out@[k].uuid@ by {
                    if k < out0.len() {
                        assert(out@[k] == out0[k]);
                    } else {
                        assert(ours@[i as int].uuid@ == out@[k].uuid@);
                    }
                }
                assert forall|a: int, b: int| 0 <= a < out@.len() && 0 <= b < out@.len() && a != b implies out@[a].uuid@ != out@[b].uuid@ by {
                    if a < out0.len() && b < out0.len() {
                        assert(out@[a] == out0[a] && out@[b] == out0[b]);
                    } else if a < out0.len() {
                        assert(out@[a] == out0[a]);
                        if !has_uuid(base@, out0[a].uuid@) {
                            let j = choose|j: int| 0 <= j < i && #[trigger] ours@[j].uuid@ == out0[a].uuid@;
                        }
                    } else if b < out0.len() {
                        assert(out@[b] == out0[b]);
                        if !has_uuid(base@, out0[b].uuid@) {
                            let j = choose|j: int| 0 <= j < i && #[trigger] ours@[j].uuid@ == out0[b].uuid@;
                        }
                    }
                }
                assert(merged_has(out@, u));
                assert forall|j: int| 0 <= j < nb && kept(base@, ours@, theirs@, #[trigger] base@[j].uuid@) implies merged_has(out@, base@[j].uuid@) by {
                    let k = choose|k: int| 0 <= k < out0.len() && #[trigger] out0[k].uuid@ == base@[j].uuid@;
                    assert(out@[k] == out0[k]);
                }
                assert forall|j: int| 0 <= j < i + 1 && !has_uuid(base@, #[trigger] ours@[j].uuid@) implies merged_has(out@, ours@[j].uuid@) by {
                    if j < i {
                        let k = choose|k: int| 0 <= k < out0.len() && #[trigger] out0[k].uuid@ == ours@[j].uuid@;
                        assert(out@[k] == out0[k]);
                    }
                }
                if one_sided {
                    assert(!has_uuid(theirs@, u));
                } else {
                    assert(has_uuid(theirs@, u));
                }
            } else {
                assert(out@ == out0);
                assert(has_uuid(base@, u));
            }
        }
        i = i + 1;
    }
    assert(ours@.take(ours@.len() as int) =~= ours@);

    // 3. tasks new in theirs only
    assert(notes_view(report.conflicts@) =~= notes_view(r0.conflicts@) + merge_notes(base@, ours@, theirs@));
    let no = ours.len();
    assert(theirs@.take(0) =~= Seq::<RawTask>::empty());
    let mut i: usize = 0;
    while i < theirs.len()
        invariant
            uuids_distinct(base@),
            uuids_distinct(ours@),
            uuids_distinct(theirs@),
            nb == base@.len(),
            no == ours@.len(),
            i <= theirs@.len(),
            r0.tasks_total + base@.len() + ours@.len() + theirs@.len() <= usize::MAX,
            r0.carried_unchanged + ours@.len() + theirs@.len() <= usize::MAX,
            count_new(ours@, base@, base@) <= no,
            count_new(ours@, base@, theirs@) <= no,
            report.tasks_total == r0.tasks_total + nb + count_new(ours@, base@, base@) + count_new(theirs@.take(i as int), base@, ours@),
            report.carried_unchanged == r0.carried_unchanged + count_new(ours@, base@, theirs@) + count_new(theirs@.take(i as int), base@, ours@),
            count_new(theirs@.take(i as int), base@, ours@) <= i,
            report.renumbered == r0.renumbered,
            report.auto_resolved == r0.auto_resolved + auto_of_base(base@, ours@, theirs@, nb as int) + auto_of_new(ours@, base@, theirs@, no as int),
            report.conflicts@.len() >= r0.conflicts@.len(),
            forall|x: int| 0 <= x < r0.conflicts@.len() ==> report.conflicts@[x] == r0.conflicts@[x],
            notes_view(report.conflicts@) == notes_view(r0.conflicts@) + merge_notes(base@, ours@, theirs@),
            (report.conflicts@.len() == r0.conflicts@.len()) == no_conflict(out@),
            merged_distinct(out@),
            forall|k: int| 0 <= k < out@.len() ==> node_ok(#[trigger] out@[k], base@, ours@, theirs@) && kept(base@, ours@, theirs@, out@[k].uuid@),
            forall|k: int| #![trigger out@[k]] 0 <= k < out@.len() ==> has_uuid(base@, out@[k].uuid@) || has_uuid(ours@, out@[k].uuid@)
                || exists|j: int| 0 <= j < i && #[trigger] theirs@[j].uuid@ == out@[k].uuid@,
            forall|j: int| 0 <= j < nb && kept(base@, ours@, theirs@, #[trigger] base@[j].uuid@) ==> merged_has(out@, base@[j].uuid@),
            forall|j: int| 0 <= j < no && !has_uuid(base@, #[trigger] ours@[j].uuid@) ==> merged_has(out@, ours@[j].uuid@),
            forall|j: int| 0 <= j < i && !has_uuid(base@, #[trigger] theirs@[j].uuid@) && !has_uuid(ours@, theirs@[j].uuid@) ==> merged_has(out@, theirs@[j].uuid@),
        decreases theirs@.len() - i,
    {
        let tt = &theirs[i];
        proof { lemma_lookup(theirs@, i as int); }
        let ghost u = tt.uuid@;
        let ghost out0 = out@;
        let in_base = find_uuid(base, &tt.uuid);
        let in_ours = find_uuid(ours, &tt.uuid);
        let mut added = false;
        if in_base.is_none() && in_ours.is_none() {
            out.push(raw_to_merged(tt, false));
            report.carried_unchanged = report.carried_unchanged + 1;
            report.tasks_total = report.tasks_total + 1;
            added = true;
        }
        proof {
            let tk = theirs@.take(i + 1);
            assert(tk.drop_last() =~= theirs@.take(i as int));
            assert(tk.last() == theirs@[i as int]);
            if added {
                assert(out@.len() == out0.len() + 1);
                assert(out@[out0.len() as int].uuid@ == u);
                assert forall|k: int| #![trigger out@[k]] 0 <= k < out@.len() implies has_uuid(base@, out@[k].uuid@) || has_uuid(ours@, out@[k].uuid@)
                    || exists|j: int| 0 <= j < i + 1 && #[trigger] theirs@[j].uuid@ == out@[k].uuid@ by {
                    if k < out0.len() {
                        assert(out@[k] == out0[k]);
                    } else {
                        assert(theirs@[i as int].uuid@ == out@[k].uuid@);
                    }
                }
                assert forall|a: int, b: int| 0 <= a < out@.len() && 0 <= b < out@.len() && a != b implies out@[a].uuid@ != out@[b].uuid@ by {
                    if a < out0.len() && b < out0.len() {
                        assert(out@[a] == out0[a] && out@[b] == out0[b]);
                    } else if a < out0.len() {
                        assert(out@[a] == out0[a]);
                        if !has_uuid(base@, out0[a].uuid@) && !has_uuid(ours@, out0[a].uuid@) {
                            let j = choose|j: int| 0 <= j < i && #[trigger] theirs@[j].uuid@ == out0[a].uuid@;
                        }
                    } else if b < out0.len() {
                        assert(out@[b] == out0[b]);
                        if !has_uuid(base@, out0[b].uuid@) && !has_uuid(ours@, out0[b].uuid@) {
                            let j = choose|j: int| 0 <= j < i && #[trigger] theirs@[j].uuid@ == out0[b].uuid@;
                        }
                    }
                }
                assert(merged_has(out@, u));
                assert forall|j: int| 0 <= j < nb && kept(base@, ours@, theirs@, #[trigger] base@[j].uuid@) implies merged_has(out@, base@[j].uuid@) by {
                    let k = choose|k: int| 0 <= k < out0.len() && #[trigger] out0[k].uuid@ == base@[j].uuid@;
                    assert(out@[k] == out0[k]);
                }
                assert forall|j: int| 0 <= j < no && !has_uuid(base@, #[trigger] ours@[j].uuid@) implies merged_has(out@, ours@[j].uuid@) by {
                    let k = choose|k: int| 0 <= k < out0.len() && #[trigger] out0[k].uuid@ == ours@[j].uuid@;
                    assert(out@[k] == out0[k]);
                }
                assert forall|j: int| 0 <= j < i + 1 && !has_uuid(base@, #[trigger] theirs@[j].uuid@) && !has_uuid(ours@, theirs@[j].uuid@) implies merged_has(out@, theirs@[j].uuid@) by {
                    if j < i {
                        let k = choose|k: int| 0 <= k < out0.len() && #[trigger] out0[k].uuid@ == theirs@[j].uuid@;
                        assert(out@[k] == out0[k]);
                    }
                }
            } else {
                assert(out@ == out0);
            }
        }
        i = i + 1;
    }
    proof {
        assert(theirs@.take(theirs@.len() as int) =~= theirs@);
        assert forall|u: Seq<char>| kept(base@, ours@, theirs@, u) implies merged_has(out@, u) by {
            if has_uuid(base@, u) {
                let j = choose|j: int| 0 <= j < base@.len() && #[trigger] base@[j].uuid@ == u;
            } else if has_uuid(ours@, u) {
                let j = choose|j: int| 0 <= j < ours@.len() && #[trigger] ours@[j].uuid@ == u;
            } else {
                let j = choose|j: int| 0 <= j < theirs@.len() && #[trigger] theirs@[j].uuid@ == u;
            }
        }
    }
    out
}

/// `b` is `a` with (possibly) other dependency and related lists.
pub open spec fn same_except_links(a: MergedTask, b: MergedTask) -> bool {
    &&& a.uuid@ == b.uuid@
    &&& a.id == b.id
    &&& a.title@ == b.title@
    &&& opt_view(a.details) == opt_view(b.details)
    &&& a.status@ == b.status@
    &&& a.priority == b.priority
    &&& a.is_gate == b.is_gate
    &&& a.created_at@ == b.created_at@
    &&& opt_view(a.started_at) == opt_view(b.started_at)
    &&& opt_view(a.completed_at) == opt_view(b.completed_at)
    &&& opt_view(a.location) == opt_view(b.location)
    &&& opt_view(a.project_name) == opt_view(b.project_name)
    &&& opt_view(a.implementation_client) == opt_view(b.implementation_client)
    &&& seq_view(a.tags@) == seq_view(b.tags@)
    &&& a.conflict == b.conflict
}

/// Task `a` depends on task `b` (both positions in the list).
pub open spec fn dep_rel(nodes: Seq<MergedTask>) -> spec_fn(usize, usize) -> bool {
    |a: usize, b: usize| a < nodes.len() && b < nodes.len() && seq_view(nodes[a as int].deps@).contains(nodes[b as int].uuid@)
}

/// Task `a` lists task `b` as related.
pub open spec fn rel_rel(nodes: Seq<MergedTask>) -> spec_fn(usize, usize) -> bool {
    |a: usize, b: usize| a < nodes.len() && b < nodes.len() && seq_view(nodes[a as int].related@).contains(nodes[b as int].uuid@)
}

/// Every uuid in the list names a task of `nodes`.
pub open spec fn names_nodes(list: Seq<Seq<char>>, nodes: Seq<MergedTask>) -> bool {
    forall|x: int| 0 <= x < list.len() ==> merged_has(nodes, #[trigger] list[x])
}

/// Position of the merged task with uuid `u`.
pub fn find_merged(v: &Vec<MergedTask>, u: &String) -> (r: Option<usize>)
    ensures
        match r {
            Some(i) => i < v@.len() && v@[i as int].uuid@ == u@,
            None => !merged_has(v@, u@),
        },
{
    let mut i: usize = 0;
    while i < v.len()
        invariant
            i <= v@.len(),
            forall|j: int| 0 <= j < i ==> v@[j].uuid@ != u@,
        decreases v@.len() - i,
    {
        if str_eq(v[i].uuid.as_str(), u.as_str()) {
            return Some(i);
        }
        i = i + 1;
    }
    None
}

/// Positions of the tasks a uuid list names, skipping unknown uuids and the
/// task itself.
fn resolve_targets(nodes: &Vec<MergedTask>, k: usize, list: &Vec<String>) -> (r: Vec<usize>)
    requires
        merged_distinct(nodes@),
        k < nodes@.len(),
    ensures
        forall|x: int| 0 <= x < r@.len() ==> #[trigger] r@[x] < nodes@.len() && r@[x] != k,
        forall|j: usize| j < nodes@.len() ==> (r@.contains(j) <==> (j != k && seq_view(list@).contains(nodes@[j as int].uuid@))),
{
    let mut out: Vec<usize> = Vec::new();
    let mut i: usize = 0;
    while i < list.len()
        invariant
            merged_distinct(nodes@),
            k < nodes@.len(),
            i <= list@.len(),
            forall|x: int| 0 <= x < out@.len() ==> #[trigger] out@[x] < nodes@.len() && out@[x] != k,
            forall|j: usize| j < nodes@.len() ==> (out@.contains(j) <==> (j != k && seq_view(list@.take(i as int)).contains(nodes@[j as int].uuid@))),
        decreases list@.len() - i,
    {
        let ghost before = out@;
        let f = find_merged(nodes, &list[i]);
        match f {
            Some(j) => {
                if j != k {
                    out.push(j);
                }
            },
            None => {},
        }
        proof {
            assert(seq_view(list@.take(i + 1)) =~= seq_view(list@.take(i as int)).push(list@[i as int]@));
            let lv = seq_view(list@.take(i as int));
            let lv2 = seq_view(list@.take(i + 1));
            assert(lv2 =~= lv.push(list@[i as int]@));
            assert forall|j: usize| j < nodes@.len() implies (out@.contains(j) <==> (j != k && lv2.contains(nodes@[j as int].uuid@))) by {
                let uj = nodes@[j as int].uuid@;
                if out@.contains(j) {
                    let x = choose|x: int| 0 <= x < out@.len() && out@[x] == j;
                    if x < before.len() {
                        assert(before[x] == j);
                        assert(before.contains(j));
                        let y = choose|y: int| 0 <= y < lv.len() && lv[y] == uj;
                        assert(lv2[y] == uj);
                    } else {
                        assert(lv2[i as int] == uj);
                    }
                }
                if j != k && lv2.contains(uj) {
                    let y = choose|y: int| 0 <= y < lv2.len() && lv2[y] == uj;
                    if y < i {
                        assert(lv[y] == uj);
                        assert(before.contains(j));
                        let x = choose|x: int| 0 <= x < before.len() && before[x] == j;
                        assert(out@[x] == j);
                    } else {
                        assert(list@[i as int]@ == uj);
                        assert(merged_has(nodes@, uj));
                        match f {
                            Some(j2) => {
                                assert(nodes@[j2 as int].uuid@ == uj);
                                assert(j2 == j);
                                assert(out@[before.len() as int] == j);
                            },
                            None => {},
                        }
                    }
                }
            }
        }
        i = i + 1;
    }
    assert(list@.take(list@.len() as int) =~= list@);
    out
}

fn contains_idx(v: &Vec<usize>, x: usize) -> (r: bool)
    ensures
        r == v@.contains(x),
{
    let mut i: usize = 0;
    while i < v.len()
        invariant
            i <= v@.len(),
            forall|j: int| 0 <= j < i ==> v@[j] != x,
        decreases v@.len() - i,
    {
        if v[i] == x {
            return true;
        }
        i = i + 1;
    }
    false
}

/// The uuids of the given positions.
fn uuids_at(nodes: &Vec<MergedTask>, idxs: &Vec<usize>) -> (r: Vec<String>)
    requires
        forall|x: int| 0 <= x < idxs@.len() ==> #[trigger] idxs@[x] < nodes@.len(),
    ensures
        seq_view(r@) == idxs@.map_values(|j: usize| nodes@[j as int].uuid@),
{
    let mut r: Vec<String> = Vec::new();
    let mut i: usize = 0;
    while i < idxs.len()
        invariant
            i <= idxs@.len(),
            forall|x: int| 0 <= x < idxs@.len() ==> #[trigger] idxs@[x] < nodes@.len(),
            seq_view(r@) =~= idxs@.take(i as int).map_values(|j: usize| nodes@[j as int].uuid@),
        decreases idxs@.len() - i,
    {
        let ghost before = r@;
        let u = nodes[idxs[i]].uuid.clone();
        r.push(u);
        assert(r@ =~= before.push(u));
        assert(seq_view(r@) =~= seq_view(before).push(u@));
        assert(idxs@.take(i + 1) =~= idxs@.take(i as int).push(idxs@[i as int]));
        assert(idxs@.take(i + 1).map_values(|j: usize| nodes@[j as int].uuid@)
            =~= idxs@.take(i as int).map_values(|j: usize| nodes@[j as int].uuid@).push(nodes@[idxs@[i as int] as int].uuid@));
        i = i + 1;
    }
    assert(idxs@.take(idxs@.len() as int) =~= idxs@);
    r
}

/// Copy of `m` with the given dependency and related lists.
fn with_links(m: &MergedTask, deps: Vec<String>, related: Vec<String>) -> (r: MergedTask)
    ensures
        same_except_links(r, *m),
        r.deps == deps,
        r.related == related,
{
    MergedTask {
        uuid: m.uuid.clone(),
        id: m.id,
        title: m.title.clone(),
        details: clone_opt(&m.details),
        status: m.status.clone(),
        priority: m.priority,
        is_gate: m.is_gate,
        created_at: m.created_at.clone(),
        started_at: clone_opt(&m.started_at),
        completed_at: clone_opt(&m.completed_at),
        location: clone_opt(&m.location),
        project_name: clone_opt(&m.project_name),
        implementation_client: clone_opt(&m.implementation_client),
        tags: clone_strings(&m.tags),
        deps,
        related,
        conflict: m.conflict,
    }
}

fn empty_lists(n: usize) -> (r: Vec<Vec<usize>>)
    ensures
        r@.len() == n,
        forall|a: int| 0 <= a < n ==> (#[trigger] r@[a])@.len() == 0,
{
    let mut r: Vec<Vec<usize>> = Vec::new();
    let mut i: usize = 0;
    while i < n
        invariant
            i <= n,
            r@.len() == i,
            forall|a: int| 0 <= a < i ==> (#[trigger] r@[a])@.len() == 0,
        decreases n - i,
    {
        r.push(Vec::new());
        i = i + 1;
    }
    r
}

/// Keeps, for each task in order, each candidate dependency that names
/// another merged task and does not close a cycle with the edges kept so far.
/// Adding `task -> new_dep` closes a cycle exactly when `new_dep` already
/// reaches `task`.
pub fn would_cycle(adj: &Vec<Vec<usize>>, task: usize, new_dep: usize) -> (r: bool)
    requires
        graph_wf(adj@),
        task < adj@.len(),
        new_dep < adj@.len(),
    ensures
        r == reach(adj_rel(adj@), new_dep, task),
{
    reaches(adj, new_dep, task)
}

fn settle_deps(nodes: &Vec<MergedTask>) -> (adj: Vec<Vec<usize>>)
    requires
        merged_distinct(nodes@),
    ensures
        adj@.len() == nodes@.len(),
        graph_wf(adj@),
        acyclic(adj_rel(adj@)),
        forall|a: int| 0 <= a < adj@.len() ==> (#[trigger] adj@[a])@.no_duplicates(),
        forall|a: usize, b: usize| #[trigger] edge(adj@, a, b) ==> a != b && seq_view(nodes@[a as int].deps@).contains(nodes@[b as int].uuid@),
        forall|a: usize, b: usize| a < nodes@.len() && b < nodes@.len() && a != b
            && seq_view(nodes@[a as int].deps@).contains(nodes@[b as int].uuid@) && !edge(adj@, a, b)
            ==> #[trigger] reach(adj_rel(adj@), b, a),
{
    let n = nodes.len();
    let mut adj = empty_lists(n);
    let mut k: usize = 0;
    while k < n
        invariant
            n == nodes@.len(),
            merged_distinct(nodes@),
            k <= n,
            adj@.len() == n,
            graph_wf(adj@),
            acyclic(adj_rel(adj@)),
            forall|a: int| 0 <= a < n ==> (#[trigger] adj@[a])@.no_duplicates(),
            forall|a: int| k <= a < n ==> (#[trigger] adj@[a])@.len() == 0,
            forall|a: usize, b: usize| #[trigger] edge(adj@, a, b) ==> a != b && seq_view(nodes@[a as int].deps@).contains(nodes@[b as int].uuid@),
            forall|a: usize, b: usize| a < k && b < n && a != b
                && seq_view(nodes@[a as int].deps@).contains(nodes@[b as int].uuid@) && !edge(adj@, a, b)
                ==> #[trigger] reach(adj_rel(adj@), b, a),
        decreases n - k,
    {
        let cand = resolve_targets(nodes, k, &nodes[k].deps);
        let mut x: usize = 0;
        while x < cand.len()
            invariant
                n == nodes@.len(),
                merged_distinct(nodes@),
                k < n,
                x <= cand@.len(),
                adj@.len() == n,
                graph_wf(adj@),
                acyclic(adj_rel(adj@)),
                forall|y: int| 0 <= y < cand@.len() ==> #[trigger] cand@[y] < n && cand@[y] != k,
                forall|j: usize| j < n ==> (cand@.contains(j) <==> (j != k && seq_view(nodes@[k as int].deps@).contains(nodes@[j as int].uuid@))),
                forall|a: int| 0 <= a < n ==> (#[trigger] adj@[a])@.no_duplicates(),
                forall|a: int| k < a < n ==> (#[trigger] adj@[a])@.len() == 0,
                forall|a: usize, b: usize| #[trigger] edge(adj@, a, b) ==> a != b && seq_view(nodes@[a as int].deps@).contains(nodes@[b as int].uuid@),
                forall|a: usize, b: usize| a < k && b < n && a != b
                    && seq_view(nodes@[a as int].deps@).contains(nodes@[b as int].uuid@) && !edge(adj@, a, b)
                    ==> #[trigger] reach(adj_rel(adj@), b, a),
                forall|y: int| 0 <= y < x && !edge(adj@, k, cand@[y]) ==> #[trigger] reach(adj_rel(adj@), cand@[y], k),
            decreases cand@.len() - x,
        {
            let j = cand[x];
            let ghost old_adj = adj@;
            if !contains_idx(&adj[k], j) && !would_cycle(&adj, k, j) {
                let ghost old_row = adj@[k as int]@;
                let mut row = adj[k].clone();
                assert(row@ =~= old_row);
                row.push(j);
                adj.set(k, row);
                proof {
                    assert forall|a: usize, b: usize| #[trigger] adj_rel(adj@)(a, b) implies adj_rel(old_adj)(a, b) || (a == k && b == j) by {
                        if a != k {
                            assert(adj@[a as int] == old_adj[a as int]);
                        } else if b != j {
                            let w = choose|w: int| 0 <= w < adj@[a as int]@.len() && adj@[a as int]@[w] == b;
                            assert(old_adj[a as int]@[w] == b);
                        }
                    }
                    lemma_acyclic_add_edge(adj_rel(old_adj), adj_rel(adj@), k, j);
                    assert forall|a: usize, b: usize| #[trigger] adj_rel(old_adj)(a, b) implies adj_rel(adj@)(a, b) by {
                        if a == k {
                            let w = choose|w: int| 0 <= w < old_adj[a as int]@.len() && old_adj[a as int]@[w] == b;
                            assert(adj@[a as int]@[w] == b);
                        } else {
                            assert(adj@[a as int] == old_adj[a as int]);
                        }
                    }
                    assert forall|a: int| 0 <= a < n implies (#[trigger] adj@[a])@.no_duplicates() by {
                        if a != k { assert(adj@[a] == old_adj[a]); }
                    }
                    assert forall|i2: int, j2: int| 0 <= i2 < adj@.len() && 0 <= j2 < adj@[i2]@.len() implies #[trigger] adj@[i2]@[j2] < adj@.len() by {
                        if i2 != k { assert(adj@[i2] == old_adj[i2]); } else if j2 < old_row.len() { assert(adj@[i2]@[j2] == old_row[j2]); }
                    }
                    assert forall|a: usize, b: usize| #[trigger] edge(adj@, a, b) implies a != b && seq_view(nodes@[a as int].deps@).contains(nodes@[b as int].uuid@) by {
                        assert(adj_rel(adj@)(a, b));
                        if !(a == k && b == j) {
                            assert(adj_rel(old_adj)(a, b));
                        } else {
                            assert(cand@[x as int] == j);
                            assert(cand@.contains(j));
                        }
                    }
                    assert forall|a: usize, b: usize| a < k && b < n && a != b
                        && seq_view(nodes@[a as int].deps@).contains(nodes@[b as int].uuid@) && !edge(adj@, a, b)
                        implies #[trigger] reach(adj_rel(adj@), b, a) by {
                        if !edge(old_adj, a, b) {
                            assert(reach(adj_rel(old_adj), b, a));
                            lemma_reach_monotone(adj_rel(old_adj), adj_rel(adj@), b, a);
                        } else {
                            assert(adj_rel(old_adj)(a, b));
                            assert(adj_rel(adj@)(a, b));
                        }
                    }
                    assert forall|y: int| 0 <= y < x + 1 && !edge(adj@, k, cand@[y]) implies #[trigger] reach(adj_rel(adj@), cand@[y], k) by {
                        if y < x {
                            if !edge(old_adj, k, cand@[y]) {
                                lemma_reach_monotone(adj_rel(old_adj), adj_rel(adj@), cand@[y], k);
                            } else {
                                assert(adj_rel(old_adj)(k, cand@[y]));
                                assert(adj_rel(adj@)(k, cand@[y]));
                            }
                        } else {
                            assert(adj@[k as int]@[old_row.len() as int] == j);
                            assert(edge(adj@, k, j));
                        }
                    }
                }
            } else {
                proof {
                    assert(adj@ == old_adj);
                    if !edge(adj@, k, j) {
                        assert(!adj@[k as int]@.contains(j));
                    }
                }
            }
            x = x + 1;
        }
        proof {
            assert forall|a: usize, b: usize| a < k + 1 && b < n && a != b
                && seq_view(nodes@[a as int].deps@).contains(nodes@[b as int].uuid@) && !edge(adj@, a, b)
                implies #[trigger] reach(adj_rel(adj@), b, a) by {
                if a == k {
                    assert(cand@.contains(b));
                    let y = choose|y: int| 0 <= y < cand@.len() && cand@[y] == b;
                }
            }
        }
        k = k + 1;
    }
    adj
}

pub open spec fn rel_cand(nodes: Seq<MergedTask>, a: usize, b: usize) -> bool {
    seq_view(nodes[a as int].related@).contains(nodes[b as int].uuid@)
}

/// Adds the edge `a -> b` unless present.
fn add_edge(g: &mut Vec<Vec<usize>>, a: usize, b: usize)
    requires
        a < old(g)@.len(),
        b < old(g)@.len(),
        graph_wf(old(g)@),
        forall|x: int| 0 <= x < old(g)@.len() ==> (#[trigger] old(g)@[x])@.no_duplicates(),
    ensures
        final(g)@.len() == old(g)@.len(),
        graph_wf(final(g)@),
        forall|x: int| 0 <= x < final(g)@.len() ==> (#[trigger] final(g)@[x])@.no_duplicates(),
        forall|x: usize, y: usize| #[trigger] edge(final(g)@, x, y) <==> edge(old(g)@, x, y) || (x == a && y == b),
{
    if contains_idx(&g[a], b) {
        return;
    }
    let ghost old_g = g@;
    let mut row = g[a].clone();
    assert(row@ =~= old_g[a as int]@);
    row.push(b);
    g.set(a, row);
    assert forall|x: usize, y: usize| #[trigger] edge(g@, x, y) <==> edge(old_g, x, y) || (x == a && y == b) by {
        if x == a {
            if edge(old_g, x, y) {
                let w = choose|w: int| 0 <= w < old_g[x as int]@.len() && old_g[x as int]@[w] == y;
                assert(g@[x as int]@[w] == y);
            }
            if y == b {
                assert(g@[x as int]@[old_g[x as int]@.len() as int] == b);
            }
            if edge(g@, x, y) && y != b {
                let w = choose|w: int| 0 <= w < g@[x as int]@.len() && g@[x as int]@[w] == y;
                assert(old_g[x as int]@[w] == y);
            }
        } else {
            if x < g@.len() {
                assert(g@[x as int] == old_g[x as int]);
            }
        }
    }
    assert forall|x: int| 0 <= x < g@.len() implies (#[trigger] g@[x])@.no_duplicates() by {
        if x != a { assert(g@[x] == old_g[x]); }
    }
    assert forall|i2: int, j2: int| 0 <= i2 < g@.len() && 0 <= j2 < g@[i2]@.len() implies #[trigger] g@[i2]@[j2] < g@.len() by {
        if i2 != a { assert(g@[i2] == old_g[i2]); } else if j2 < old_g[i2]@.len() { assert(g@[i2]@[j2] == old_g[i2]@[j2]); }
    }
}

/// Related links, made mutual: `a` and `b` are linked when either lists the
/// other (and they are different tasks).
fn settle_related(nodes: &Vec<MergedTask>) -> (rel: Vec<Vec<usize>>)
    requires
        merged_distinct(nodes@),
    ensures
        rel@.len() == nodes@.len(),
        graph_wf(rel@),
        forall|a: int| 0 <= a < rel@.len() ==> (#[trigger] rel@[a])@.no_duplicates(),
        forall|a: usize, b: usize| a < nodes@.len() && b < nodes@.len() ==>
            (#[trigger] edge(rel@, a, b) <==> (a != b && (rel_cand(nodes@, a, b) || rel_cand(nodes@, b, a)))),
{
    let n = nodes.len();
    let mut rel = empty_lists(n);
    assert(graph_wf(rel@));
    let mut k: usize = 0;
    while k < n
        invariant
            n == nodes@.len(),
            merged_distinct(nodes@),
            k <= n,
            rel@.len() == n,
            graph_wf(rel@),
            forall|a: int| 0 <= a < n ==> (#[trigger] rel@[a])@.no_duplicates(),
            forall|a: usize, b: usize| a < n && b < n ==>
                (#[trigger] edge(rel@, a, b) <==> (a != b && ((a < k && rel_cand(nodes@, a, b)) || (b < k && rel_cand(nodes@, b, a))))),
        decreases n - k,
    {
        let cand = resolve_targets(nodes, k, &nodes[k].related);
        let mut x: usize = 0;
        while x < cand.len()
            invariant
                n == nodes@.len(),
                merged_distinct(nodes@),
                k < n,
                x <= cand@.len(),
                rel@.len() == n,
                graph_wf(rel@),
                forall|y: int| 0 <= y < cand@.len() ==> #[trigger] cand@[y] < n && cand@[y] != k,
                forall|j: usize| j < n ==> (cand@.contains(j) <==> (j != k && rel_cand(nodes@, k, j))),
                forall|a: int| 0 <= a < n ==> (#[trigger] rel@[a])@.no_duplicates(),
                forall|a: usize, b: usize| a < n && b < n ==>
                    (#[trigger] edge(rel@, a, b) <==> (a != b && ((a < k && rel_cand(nodes@, a, b)) || (b < k && rel_cand(nodes@, b, a))
                        || (a == k && cand@.take(x as int).contains(b)) || (b == k && cand@.take(x as int).contains(a))))),
            decreases cand@.len() - x,
        {
            let j = cand[x];
            let ghost r0 = rel@;
            add_edge(&mut rel, k, j);
            let ghost r1 = rel@;
            add_edge(&mut rel, j, k);
            proof {
                assert(cand@.take(x + 1) =~= cand@.take(x as int).push(j));
                assert forall|a: usize, b: usize| a < n && b < n implies
                    (#[trigger] edge(rel@, a, b) <==> (a != b && ((a < k && rel_cand(nodes@, a, b)) || (b < k && rel_cand(nodes@, b, a))
                        || (a == k && cand@.take(x + 1).contains(b)) || (b == k && cand@.take(x + 1).contains(a))))) by {
                    assert(edge(rel@, a, b) <==> edge(r1, a, b) || (a == j && b == k));
                    assert(edge(r1, a, b) <==> edge(r0, a, b) || (a == k && b == j));
                    if a == k && cand@.take(x + 1).contains(b) && !cand@.take(x as int).contains(b) {
                        assert(b == j);
                    }
                    if b == k && cand@.take(x + 1).contains(a) && !cand@.take(x as int).contains(a) {
                        assert(a == j);
                    }
                    if a == k && b == j {
                        assert(cand@.take(x + 1)[x as int] == j);
                    }
                    if a == j && b == k {
                        assert(cand@.take(x + 1)[x as int] == j);
                    }
                }
            }
            x = x + 1;
        }
        proof {
            assert(cand@.take(cand@.len() as int) =~= cand@);
            assert forall|a: usize, b: usize| a < n && b < n implies
                (#[trigger] edge(rel@, a, b) <==> (a != b && ((a < k + 1 && rel_cand(nodes@, a, b)) || (b < k + 1 && rel_cand(nodes@, b, a))))) by {
                if a == k && rel_cand(nodes@, a, b) && a != b {
                    assert(cand@.contains(b));
                }
                if b == k && rel_cand(nodes@, b, a) && a != b {
                    assert(cand@.contains(a));
                }
            }
        }
        k = k + 1;
    }
    rel
}

proof fn lemma_map_uuids(nodes: Seq<MergedTask>, idxs: Seq<usize>)
    requires
        merged_distinct(nodes),
        forall|x: int| 0 <= x < idxs.len() ==> #[trigger] idxs[x] < nodes.len(),
    ensures
        forall|b: usize| b < nodes.len() ==> (idxs.map_values(|j: usize| nodes[j as int].uuid@).contains(#[trigger] nodes[b as int].uuid@) <==> idxs.contains(b)),
        idxs.no_duplicates() ==> idxs.map_values(|j: usize| nodes[j as int].uuid@).no_duplicates(),
        names_nodes(idxs.map_values(|j: usize| nodes[j as int].uuid@), nodes),
{
    let m = idxs.map_values(|j: usize| nodes[j as int].uuid@);
    assert forall|b: usize| b < nodes.len() implies (m.contains(#[trigger] nodes[b as int].uuid@) <==> idxs.contains(b)) by {
        if m.contains(nodes[b as int].uuid@) {
            let x = choose|x: int| 0 <= x < m.len() && m[x] == nodes[b as int].uuid@;
            assert(nodes[idxs[x] as int].uuid@ == nodes[b as int].uuid@);
            assert(idxs[x] == b);
        }
        if idxs.contains(b) {
            let x = choose|x: int| 0 <= x < idxs.len() && idxs[x] == b;
            assert(m[x] == nodes[b as int].uuid@);
        }
    }
    if idxs.no_duplicates() {
        assert forall|x: int, y: int| 0 <= x < m.len() && 0 <= y < m.len() && x != y implies m[x] != m[y] by {
            assert(idxs[x] != idxs[y]);
        }
    }
    assert forall|x: int| 0 <= x < m.len() implies merged_has(nodes, #[trigger] m[x]) by {
        assert(nodes[idxs[x] as int].uuid@ == m[x]);
    }
}

/// Replaces each task's dependency and related lists by the settled ones:
/// dependencies on other merged tasks that keep the graph acyclic (taken
/// greedily in task order), and related links made mutual.
pub fn settle_links(nodes: &Vec<MergedTask>) -> (out: Vec<MergedTask>)
    requires
        merged_distinct(nodes@),
    ensures
        out@.len() == nodes@.len(),
        forall|k: int| 0 <= k < out@.len() ==> same_except_links(#[trigger] out@[k], nodes@[k]),
        merged_distinct(out@),
        forall|k: int| 0 <= k < out@.len() ==> seq_view((#[trigger] out@[k]).deps@).no_duplicates()
            && seq_view(out@[k].related@).no_duplicates()
            && names_nodes(seq_view(out@[k].deps@), out@)
            && names_nodes(seq_view(out@[k].related@), out@),
        forall|a: usize, b: usize| #[trigger] dep_rel(out@)(a, b) ==> a != b && seq_view(nodes@[a as int].deps@).contains(nodes@[b as int].uuid@),
        acyclic(dep_rel(out@)),
        forall|a: usize, b: usize| a < nodes@.len() && b < nodes@.len() && a != b
            && seq_view(nodes@[a as int].deps@).contains(nodes@[b as int].uuid@) && !dep_rel(out@)(a, b)
            ==> #[trigger] reach(dep_rel(out@), b, a),
        forall|a: usize, b: usize| a < nodes@.len() && b < nodes@.len() ==>
            (#[trigger] rel_rel(out@)(a, b) <==> (a != b && (rel_cand(nodes@, a, b) || rel_cand(nodes@, b, a)))),
{
    let adj = settle_deps(nodes);
    let rel = settle_related(nodes);
    let n = nodes.len();
    let mut out: Vec<MergedTask> = Vec::new();
    let mut k: usize = 0;
    while k < n
        invariant
            n == nodes@.len(),
            merged_distinct(nodes@),
            adj@.len() == n,
            rel@.len() == n,
            graph_wf(adj@),
            graph_wf(rel@),
            k <= n,
            out@.len() == k,
            forall|x: int| 0 <= x < k ==> same_except_links(#[trigger] out@[x], nodes@[x]),
            forall|x: int| 0 <= x < k ==> seq_view((#[trigger] out@[x]).deps@) == adj@[x]@.map_values(|j: usize| nodes@[j as int].uuid@),
            forall|x: int| 0 <= x < k ==> seq_view((#[trigger] out@[x]).related@) == rel@[x]@.map_values(|j: usize| nodes@[j as int].uuid@),
        decreases n - k,
    {
        proof {
            assert forall|x: int| 0 <= x < adj@[k as int]@.len() implies #[trigger] adj@[k as int]@[x] < nodes@.len() by {
                assert(adj@[k as int]@[x] < adj@.len());
            }
            assert forall|x: int| 0 <= x < rel@[k as int]@.len() implies #[trigger] rel@[k as int]@[x] < nodes@.len() by {
                assert(rel@[k as int]@[x] < rel@.len());
            }
        }
        let deps = uuids_at(nodes, &adj[k]);
        let related = uuids_at(nodes, &rel[k]);
        let m = with_links(&nodes[k], deps, related);
        out.push(m);
        k = k + 1;
    }
    proof {
        assert forall|a: int, b: int| 0 <= a < out@.len() && 0 <= b < out@.len() && a != b implies out@[a].uuid@ != out@[b].uuid@ by {
            assert(same_except_links(out@[a], nodes@[a]));
            assert(same_except_links(out@[b], nodes@[b]));
        }
        assert forall|k2: int| 0 <= k2 < out@.len() implies seq_view((#[trigger] out@[k2]).deps@).no_duplicates()
            && seq_view(out@[k2].related@).no_duplicates()
            && names_nodes(seq_view(out@[k2].deps@), out@)
            && names_nodes(seq_view(out@[k2].related@), out@) by {
            assert forall|x: int| 0 <= x < adj@[k2]@.len() implies #[trigger] adj@[k2]@[x] < nodes@.len() by {
                assert(adj@[k2]@[x] < adj@.len());
            }
            assert forall|x: int| 0 <= x < rel@[k2]@.len() implies #[trigger] rel@[k2]@[x] < nodes@.len() by {
                assert(rel@[k2]@[x] < rel@.len());
            }
            lemma_map_uuids(nodes@, adj@[k2]@);
            lemma_map_uuids(nodes@, rel@[k2]@);
            assert forall|x: int| 0 <= x < seq_view(out@[k2].deps@).len() implies merged_has(out@, #[trigger] seq_view(out@[k2].deps@)[x]) by {
                let u = seq_view(out@[k2].deps@)[x];
                assert(merged_has(nodes@, u));
                let j = choose|j: int| 0 <= j < nodes@.len() && #[trigger] nodes@[j].uuid@ == u;
                assert(same_except_links(out@[j], nodes@[j]));
                assert(out@[j].uuid@ == u);
            }
            assert forall|x: int| 0 <= x < seq_view(out@[k2].related@).len() implies merged_has(out@, #[trigger] seq_view(out@[k2].related@)[x]) by {
                let u = seq_view(out@[k2].related@)[x];
                assert(merged_has(nodes@, u));
                let j = choose|j: int| 0 <= j < nodes@.len() && #[trigger] nodes@[j].uuid@ == u;
                assert(same_except_links(out@[j], nodes@[j]));
                assert(out@[j].uuid@ == u);
            }
        }
        assert forall|a: usize, b: usize| #[trigger] dep_rel(out@)(a, b) == adj_rel(adj@)(a, b) by {
            if a < n && b < n {
                assert forall|x: int| 0 <= x < adj@[a as int]@.len() implies #[trigger] adj@[a as int]@[x] < nodes@.len() by {
                    assert(adj@[a as int]@[x] < adj@.len());
                }
                lemma_map_uuids(nodes@, adj@[a as int]@);
                assert(same_except_links(out@[b as int], nodes@[b as int]));
                assert(seq_view(out@[a as int].deps@) == adj@[a as int]@.map_values(|j: usize| nodes@[j as int].uuid@));
                assert(out@[b as int].uuid@ == nodes@[b as int].uuid@);
            } else if a < n {
                if edge(adj@, a, b) {
                    let x = choose|x: int| 0 <= x < adj@[a as int]@.len() && adj@[a as int]@[x] == b;
                    assert(adj@[a as int]@[x] < adj@.len());
                }
            }
        }
        assert(dep_rel(out@) =~= adj_rel(adj@));
        assert forall|a: usize, b: usize| a < n && b < n implies #[trigger] rel_rel(out@)(a, b) == edge(rel@, a, b) by {
            assert forall|x: int| 0 <= x < rel@[a as int]@.len() implies #[trigger] rel@[a as int]@[x] < nodes@.len() by {
                assert(rel@[a as int]@[x] < rel@.len());
            }
            lemma_map_uuids(nodes@, rel@[a as int]@);
            assert(same_except_links(out@[b as int], nodes@[b as int]));
            assert(seq_view(out@[a as int].related@) == rel@[a as int]@.map_values(|j: usize| nodes@[j as int].uuid@));
        }
        assert forall|a: usize, b: usize| #[trigger] dep_rel(out@)(a, b) implies a != b && seq_view(nodes@[a as int].deps@).contains(nodes@[b as int].uuid@) by {
            assert(edge(adj@, a, b));
        }
        assert forall|a: usize, b: usize| a < nodes@.len() && b < nodes@.len() && a != b
            && seq_view(nodes@[a as int].deps@).contains(nodes@[b as int].uuid@) && !dep_rel(out@)(a, b)
            implies #[trigger] reach(dep_rel(out@), b, a) by {
            assert(!edge(adj@, a, b));
        }
    }
    out
}

/// The dependency targets the merge considers for uuid `u`: the union of the
/// lists of the sides that still have the task.
pub open spec fn cand_deps(ours: Seq<RawTask>, theirs: Seq<RawTask>, u: Seq<char>) -> Set<Seq<char>> {
    (if has_uuid(ours, u) { seq_view(lookup(ours, u).deps@).to_set() } else { Set::empty() })
        + (if has_uuid(theirs, u) { seq_view(lookup(theirs, u).deps@).to_set() } else { Set::empty() })
}

/// The related targets the merge considers for uuid `u`.
pub open spec fn cand_related(ours: Seq<RawTask>, theirs: Seq<RawTask>, u: Seq<char>) -> Set<Seq<char>> {
    (if has_uuid(ours, u) { seq_view(lookup(ours, u).related@).to_set() } else { Set::empty() })
        + (if has_uuid(theirs, u) { seq_view(lookup(theirs, u).related@).to_set() } else { Set::empty() })
}

proof fn lemma_node_candidates(m: MergedTask, base: Seq<RawTask>, ours: Seq<RawTask>, theirs: Seq<RawTask>)
    requires
        node_ok(m, base, ours, theirs),
    ensures
        node_core_ok(m, base, ours, theirs),
        seq_view(m.deps@).to_set() == cand_deps(ours, theirs, m.uuid@),
        seq_view(m.related@).to_set() == cand_related(ours, theirs, m.uuid@),
{
    let u = m.uuid@;
    let e = Set::<Seq<char>>::empty();
    if has_uuid(ours, u) && has_uuid(theirs, u) {
    } else if has_uuid(ours, u) {
        assert(seq_view(lookup(ours, u).deps@).to_set() + e =~= seq_view(lookup(ours, u).deps@).to_set());
        assert(seq_view(lookup(ours, u).related@).to_set() + e =~= seq_view(lookup(ours, u).related@).to_set());
    } else {
        assert(e + seq_view(lookup(theirs, u).deps@).to_set() =~= seq_view(lookup(theirs, u).deps@).to_set());
        assert(e + seq_view(lookup(theirs, u).related@).to_set() =~= seq_view(lookup(theirs, u).related@).to_set());
    }
}

proof fn lemma_core_same_except_links(m: MergedTask, m2: MergedTask, base: Seq<RawTask>, ours: Seq<RawTask>, theirs: Seq<RawTask>)
    requires
        node_core_ok(m, base, ours, theirs),
        same_except_links(m2, m),
    ensures
        node_core_ok(m2, base, ours, theirs),
{
}

/// Merges `ours` and `theirs` against the ancestor `base` (empty when there
/// is none). Every task the rules keep (see `kept`) appears exactly once,
/// with its fields merged by the rules for its uuid (see `node_core_ok`);
/// its dependencies are drawn from both sides, limited to merged tasks
/// other than itself, and never form a cycle: a candidate dependency is
/// dropped only when its target already leads back to the task; related
/// links are the union of both sides, made mutual. The report counts the
/// tasks and appends the notes of `merge_notes`: each hard conflict, in
/// order.
pub fn merge_tasks(base: &Vec<RawTask>, ours: &Vec<RawTask>, theirs: &Vec<RawTask>, report: &mut MergeReport) -> (out: Vec<MergedTask>)
    requires
        uuids_distinct(base@),
        uuids_distinct(ours@),
        uuids_distinct(theirs@),
        old(report).tasks_total + base@.len() + ours@.len() + theirs@.len() <= usize::MAX,
        old(report).carried_unchanged + ours@.len() + theirs@.len() <= usize::MAX,
        old(report).auto_resolved + 4 * (base@.len() + ours@.len() + theirs@.len()) <= usize::MAX,
    ensures
        merged_distinct(out@),
        forall|k: int| 0 <= k < out@.len() ==> node_core_ok(#[trigger] out@[k], base@, ours@, theirs@) && kept(base@, ours@, theirs@, out@[k].uuid@),
        forall|u: Seq<char>| kept(base@, ours@, theirs@, u) ==> merged_has(out@, u),
        forall|k: int| 0 <= k < out@.len() ==> seq_view((#[trigger] out@[k]).deps@).no_duplicates()
            && seq_view(out@[k].related@).no_duplicates()
            && names_nodes(seq_view(out@[k].deps@), out@)
            && names_nodes(seq_view(out@[k].related@), out@),
        forall|a: usize, b: usize| #[trigger] dep_rel(out@)(a, b) ==> a != b && cand_deps(ours@, theirs@, out@[a as int].uuid@).contains(out@[b as int].uuid@),
        acyclic(dep_rel(out@)),
        forall|a: usize, b: usize| a < out@.len() && b < out@.len() && a != b
            && cand_deps(ours@, theirs@, out@[a as int].uuid@).contains(out@[b as int].uuid@) && !dep_rel(out@)(a, b)
            ==> #[trigger] reach(dep_rel(out@), b, a),
        forall|a: usize, b: usize| a < out@.len() && b < out@.len() ==>
            (#[trigger] rel_rel(out@)(a, b) <==> (a != b && (cand_related(ours@, theirs@, out@[a as int].uuid@).contains(out@[b as int].uuid@)
                || cand_related(ours@, theirs@, out@[b as int].uuid@).contains(out@[a as int].uuid@)))),
        final(report).tasks_total == old(report).tasks_total + base@.len() + count_new(ours@, base@, base@) + count_new(theirs@, base@, ours@),
        final(report).carried_unchanged == old(report).carried_unchanged + count_new(ours@, base@, theirs@) + count_new(theirs@, base@, ours@),
        final(report).renumbered == old(report).renumbered,
        final(report).auto_resolved == old(report).auto_resolved + auto_of_base(base@, ours@, theirs@, base@.len() as int)
            + auto_of_new(ours@, base@, theirs@, ours@.len() as int),
        forall|i: int| 0 <= i < old(report).conflicts@.len() ==> final(report).conflicts@[i] == old(report).conflicts@[i],
        final(report).conflicts@.len() >= old(report).conflicts@.len(),
        notes_view(final(report).conflicts@) == notes_view(old(report).conflicts@) + merge_notes(base@, ours@, theirs@),
        (final(report).conflicts@.len() == old(report).conflicts@.len()) == no_conflict(out@),
{
    let nodes = merge_nodes(base, ours, theirs, report);
    let out = settle_links(&nodes);
    proof {
        assert forall|k: int| 0 <= k < nodes@.len() implies
            seq_view((#[trigger] nodes@[k]).deps@).to_set() == cand_deps(ours@, theirs@, nodes@[k].uuid@)
            && seq_view(nodes@[k].related@).to_set() == cand_related(ours@, theirs@, nodes@[k].uuid@)
            && node_core_ok(nodes@[k], base@, ours@, theirs@) by {
            lemma_node_candidates(nodes@[k], base@, ours@, theirs@);
        }
        assert forall|k: int| 0 <= k < out@.len() implies node_core_ok(#[trigger] out@[k], base@, ours@, theirs@) && kept(base@, ours@, theirs@, out@[k].uuid@) by {
            assert(same_except_links(out@[k], nodes@[k]));
            lemma_core_same_except_links(nodes@[k], out@[k], base@, ours@, theirs@);
        }
        assert forall|u: Seq<char>| kept(base@, ours@, theirs@, u) implies merged_has(out@, u) by {
            assert(merged_has(nodes@, u));
            let k = choose|k: int| 0 <= k < nodes@.len() && #[trigger] nodes@[k].uuid@ == u;
            assert(same_except_links(out@[k], nodes@[k]));
            assert(out@[k].uuid@ == u);
        }
        assert forall|k: int| 0 <= k < out@.len() implies #[trigger] out@[k].uuid@ == nodes@[k].uuid@ by {
            assert(same_except_links(out@[k], nodes@[k]));
        }
        assert forall|a: usize, b: usize| #[trigger] dep_rel(out@)(a, b) implies a != b && cand_deps(ours@, theirs@, out@[a as int].uuid@).contains(out@[b as int].uuid@) by {
            assert(seq_view(nodes@[a as int].deps@).contains(nodes@[b as int].uuid@));
            assert(out@[a as int].uuid@ == nodes@[a as int].uuid@);
            assert(out@[b as int].uuid@ == nodes@[b as int].uuid@);
            assert(seq_view(nodes@[a as int].deps@).to_set().contains(nodes@[b as int].uuid@));
        }
        assert forall|a: usize, b: usize| a < out@.len() && b < out@.len() && a != b
            && cand_deps(ours@, theirs@, out@[a as int].uuid@).contains(out@[b as int].uuid@) && !dep_rel(out@)(a, b)
            implies #[trigger] reach(dep_rel(out@), b, a) by {
            assert(out@[a as int].uuid@ == nodes@[a as int].uuid@);
            assert(out@[b as int].uuid@ == nodes@[b as int].uuid@);
            assert(seq_view(nodes@[a as int].deps@).to_set().contains(nodes@[b as int].uuid@));
        }
        assert forall|a: usize, b: usize| a < out@.len() && b < out@.len() implies
            (#[trigger] rel_rel(out@)(a, b) <==> (a != b && (cand_related(ours@, theirs@, out@[a as int].uuid@).contains(out@[b as int].uuid@)
                || cand_related(ours@, theirs@, out@[b as int].uuid@).contains(out@[a as int].uuid@)))) by {
            assert(out@[a as int].uuid@ == nodes@[a as int].uuid@);
            assert(out@[b as int].uuid@ == nodes@[b as int].uuid@);
            assert(seq_view(nodes@[a as int].related@).to_set().contains(nodes@[b as int].uuid@) == rel_cand(nodes@, a, b));
            assert(seq_view(nodes@[b as int].related@).to_set().contains(nodes@[a as int].uuid@) == rel_cand(nodes@, b, a));
        }
        assert forall|k: int| 0 <= k < out@.len() implies (#[trigger] out@[k]).conflict == nodes@[k].conflict by {
            assert(same_except_links(out@[k], nodes@[k]));
        }
        if no_conflict(nodes@) {
            assert forall|k: int| 0 <= k < out@.len() implies !(#[trigger] out@[k]).conflict by {
                assert(out@[k].conflict == nodes@[k].conflict);
                assert(!nodes@[k].conflict);
            }
        }
        if no_conflict(out@) {
            assert forall|k: int| 0 <= k < nodes@.len() implies !(#[trigger] nodes@[k]).conflict by {
                assert(out@[k].conflict == nodes@[k].conflict);
                assert(!out@[k].conflict);
            }
        }
    }
    out
}

/// A strict merge gives up (and writes nothing) when any hard conflict was
/// recorded.
pub fn must_abort(report: &MergeReport, opts: MergeOptions) -> (r: bool)
    ensures
        r == (opts.strict && report.conflicts@.len() > 0),
{
    opts.strict && report.conflicts.len() > 0
}

/// Whether each list has pairwise distinct uuids (what `merge_tasks` needs).
pub fn all_uuids_distinct(v: &Vec<RawTask>) -> (r: bool)
    ensures
        r == uuids_distinct(v@),
{
    let mut i: usize = 0;
    while i < v.len()
        invariant
            i <= v@.len(),
            forall|a: int, b: int| 0 <= a < i && 0 <= b < v@.len() && a != b ==> v@[a].uuid@ != v@[b].uuid@,
        decreases v@.len() - i,
    {
        let mut j: usize = 0;
        while j < v.len()
            invariant
                i < v@.len(),
                j <= v@.len(),
                forall|a: int, b: int| 0 <= a < i && 0 <= b < v@.len() && a != b ==> v@[a].uuid@ != v@[b].uuid@,
                forall|b: int| 0 <= b < j && b != i ==> v@[i as int].uuid@ != v@[b].uuid@,
            decreases v@.len() - j,
        {
            if j != i && str_eq(v[i].uuid.as_str(), v[j].uuid.as_str()) {
                return false;
            }
            j = j + 1;
        }
        i = i + 1;
    }
    true
}

/// The merged task list is what the merge rules give (see `merge_tasks`):
/// every kept task once, merged by the rules for its uuid; dependencies
/// drawn from both sides between merged tasks, never a self-loop, acyclic,
/// a candidate dropped only when it would close a cycle; related links the
/// mutual union of both sides.
pub open spec fn merged_list_ok(base: Seq<RawTask>, ours: Seq<RawTask>, theirs: Seq<RawTask>, out: Seq<MergedTask>) -> bool {
    &&& merged_distinct(out)
    &&& forall|k: int| 0 <= k < out.len() ==> node_core_ok(#[trigger] out[k], base, ours, theirs) && kept(base, ours, theirs, out[k].uuid@)
    &&& forall|u: Seq<char>| kept(base, ours, theirs, u) ==> merged_has(out, u)
    &&& forall|k: int| 0 <= k < out.len() ==> seq_view((#[trigger] out[k]).deps@).no_duplicates()
        && seq_view(out[k].related@).no_duplicates()
        && names_nodes(seq_view(out[k].deps@), out)
        && names_nodes(seq_view(out[k].related@), out)
    &&& forall|a: usize, b: usize| #[trigger] dep_rel(out)(a, b) ==> a != b && cand_deps(ours, theirs, out[a as int].uuid@).contains(out[b as int].uuid@)
    &&& acyclic(dep_rel(out))
    &&& forall|a: usize, b: usize| a < out.len() && b < out.len() && a != b
        && cand_deps(ours, theirs, out[a as int].uuid@).contains(out[b as int].uuid@) && !dep_rel(out)(a, b)
        ==> #[trigger] reach(dep_rel(out), b, a)
    &&& forall|a: usize, b: usize| a < out.len() && b < out.len() ==>
        (#[trigger] rel_rel(out)(a, b) <==> (a != b && (cand_related(ours, theirs, out[a as int].uuid@).contains(out[b as int].uuid@)
            || cand_related(ours, theirs, out[b as int].uuid@).contains(out[a as int].uuid@))))
}

/// The report after a merge: the counts and the notes `merge_tasks` gives.
pub open spec fn merged_report_ok(base: Seq<RawTask>, ours: Seq<RawTask>, theirs: Seq<RawTask>, out: Seq<MergedTask>,
    before: MergeReport, after: MergeReport) -> bool {
    &&& after.tasks_total == before.tasks_total + base.len() + count_new(ours, base, base) + count_new(theirs, base, ours)
    &&& after.carried_unchanged == before.carried_unchanged + count_new(ours, base, theirs) + count_new(theirs, base, ours)
    &&& after.renumbered == before.renumbered
    &&& after.auto_resolved == before.auto_resolved + auto_of_base(base, ours, theirs, base.len() as int)
        + auto_of_new(ours, base, theirs, ours.len() as int)
    &&& notes_view(after.conflicts@) == notes_view(before.conflicts@) + merge_notes(base, ours, theirs)
    &&& (after.conflicts@.len() == before.conflicts@.len()) == no_conflict(out)
}

/// `database holds a repeated uuid`.
pub open spec fn repeated_uuid_msg() -> Seq<char> {
    "database holds a repeated uuid"@
}

/// The merge of three task lists as read from databases: a list with a
/// repeated uuid (which a database's uuid key rules out) is refused and the
/// report left as it was; otherwise the result is `merge_tasks`'.
pub fn merge_task_lists(base: &Vec<RawTask>, ours: &Vec<RawTask>, theirs: &Vec<RawTask>, report: &mut MergeReport)
    -> (r: Result<Vec<MergedTask>, CliError>)
    requires
        old(report).tasks_total + base@.len() + ours@.len() + theirs@.len() <= usize::MAX,
        old(report).carried_unchanged + ours@.len() + theirs@.len() <= usize::MAX,
        old(report).auto_resolved + 4 * (base@.len() + ours@.len() + theirs@.len()) <= usize::MAX,
    ensures
        (r is Ok) == (uuids_distinct(base@) && uuids_distinct(ours@) && uuids_distinct(theirs@)),
        match r {
            Ok(out) => merged_list_ok(base@, ours@, theirs@, out@)
                && merged_report_ok(base@, ours@, theirs@, out@, *old(report), *final(report)),
            Err(e) => is_system_error(e, repeated_uuid_msg()) && *final(report) == *old(report),
        },
{
    if !all_uuids_distinct(base) || !all_uuids_distinct(ours) || !all_uuids_distinct(theirs) {
        return Err(CliError::System("database holds a repeated uuid".to_string()));
    }
    let ghost before = *report;
    let out = merge_tasks(base, ours, theirs, report);
    proof {
        assert(merged_list_ok(base@, ours@, theirs@, out@));
        assert(merged_report_ok(base@, ours@, theirs@, out@, before, *report));
    }
    Ok(out)
}

} // verus!
