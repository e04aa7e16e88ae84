//! How a task reference given on the command line resolves: a display id
//! (which may be held by several tasks after a merge), a uuid, or neither;
//! and the errors each outcome gives.
use vstd::prelude::*;
use crate::error::{CliError, is_user_error};
use crate::text::{int_to_dec, nat_to_dec, parse_i64, parse_i64_spec, push_str, i64_to_string, u64_to_string};

verus! {

/// A hexadecimal digit, in either case.
pub open spec fn is_hex_digit(c: char) -> bool {
    ('0' <= c && c <= '9') || ('a' <= c && c <= 'f') || ('A' <= c && c <= 'F')
}

/// 36 characters: hyphens at 8, 13, 18 and 23, hexadecimal digits elsewhere.
pub open spec fn hyphenated_text(s: Seq<char>) -> bool {
    &&& s.len() == 36
    &&& forall|i: int| 0 <= i < 36 ==> if i == 8 || i == 13 || i == 18 || i == 23 {
        #[trigger] s[i] == '-'
    } else {
        is_hex_digit(s[i])
    }
}

/// The first nine characters spell `urn:uuid:`, letters in either case.
pub open spec fn urn_prefix(s: Seq<char>) -> bool {
    forall|i: int| 0 <= i < 9 ==> #[trigger] s[i] == "urn:uuid:"@[i] || s[i] == "URN:UUID:"@[i]
}

/// The texts `uuid::Uuid::parse_str` accepts: 32 hexadecimal digits; the
/// hyphenated form; the hyphenated form in braces; or `urn:uuid:` (letters
/// in either case) followed by the hyphenated form.
pub open spec fn uuid_text_accepted(s: Seq<char>) -> bool {
    ||| s.len() == 32 && (forall|i: int| 0 <= i < 32 ==> is_hex_digit(#[trigger] s[i]))
    ||| hyphenated_text(s)
    ||| s.len() == 38 && s[0] == '{' && s[37] == '}' && hyphenated_text(s.subrange(1, 37))
    ||| s.len() == 45 && urn_prefix(s) && hyphenated_text(s.subrange(9, 45))
}

/// `uuid::Uuid::parse_str(s).is_ok()`: the uuid crate's parser (uuid
/// 1.29, `parser.rs` `try_parse`) accepts exactly the texts of
/// `uuid_text_accepted`. Byte lengths and character lengths agree on every
/// accepted text, since all of them are ASCII.
#[verifier::external_body]
fn uuid_parses(s: &str) -> (r: bool)
    ensures
        r == uuid_text_accepted(s@),
{
    uuid::Uuid::parse_str(s).is_ok()
}

/// Law: a uuid the library mints (hyphenated, lowercase) reads back as a
/// uuid reference, never as a display id.
pub proof fn law_minted_uuid_is_a_uuid_reference(s: Seq<char>)
    requires
        crate::edit::hyphenated_uuid(s),
    ensures
        uuid_text_accepted(s),
        ref_kind(s, uuid_text_accepted(s)) == TaskRefKind::Uuid,
{
    assert(hyphenated_text(s)) by {
        assert forall|i: int| 0 <= i < 36 implies if i == 8 || i == 13 || i == 18 || i == 23 {
            #[trigger] s[i] == '-'
        } else {
            is_hex_digit(s[i])
        } by {
            assert(if i == 8 || i == 13 || i == 18 || i == 23 { s[i] == '-' } else { crate::edit::is_lower_hex(s[i]) });
        }
    }
    assert(s[8] == '-');
    assert(s[0] != '-' && s[0] != '+') by {
        assert(crate::edit::is_lower_hex(s[0]));
    }
    assert(!crate::text::all_digits(s)) by {
        assert(!crate::text::is_digit(s[8]));
    }
}

/// What a task reference denotes.
#[derive(Debug, PartialEq, Eq, Structural)]
pub enum TaskRefKind {
    /// A display id: every task holding it matches.
    DisplayId(i64),
    /// A uuid: at most one task matches.
    Uuid,
    /// Neither.
    Neither,
}

/// The kind of a reference once it is known whether the uuid crate accepts it.
pub open spec fn ref_kind(raw: Seq<char>, uuid_ok: bool) -> TaskRefKind {
    match parse_i64_spec(raw) {
        Some(n) => TaskRefKind::DisplayId(n as i64),
        None => if uuid_ok { TaskRefKind::Uuid } else { TaskRefKind::Neither },
    }
}

/// A reference that parses as an `i64` is a display id; else one that the
/// uuid crate accepts is a uuid; else it is neither.
pub fn classify_with(raw: &str, uuid_ok: bool) -> (k: TaskRefKind)
    ensures
        k == ref_kind(raw@, uuid_ok),
{
    match parse_i64(raw) {
        Some(n) => TaskRefKind::DisplayId(n),
        None => if uuid_ok { TaskRefKind::Uuid } else { TaskRefKind::Neither },
    }
}

/// Classifies a task reference given on the command line.
pub fn classify_task_ref(raw: &str) -> (k: TaskRefKind)
    ensures
        k == ref_kind(raw@, uuid_text_accepted(raw@)),
{
    let ok = uuid_parses(raw);
    classify_with(raw, ok)
}

/// What the resolution error lists of a task.
#[derive(Debug)]
pub struct TaskBrief {
    pub id: i64,
    pub uuid: String,
    pub status: String,
    pub title: String,
}

/// `task <raw> not found`.
pub open spec fn not_found_msg(raw: Seq<char>) -> Seq<char> {
    "task "@ + raw + " not found"@
}

/// `'<raw>' is not a task id or UUID`.
pub open spec fn not_a_ref_msg(raw: Seq<char>) -> Seq<char> {
    "'"@ + raw + "' is not a task id or UUID"@
}

/// `  id=.. uuid=.. status=.. title=..` and a newline.
pub open spec fn brief_line(t: TaskBrief) -> Seq<char> {
    "  id="@ + int_to_dec(t.id as int) + " uuid="@ + t.uuid@ + " status="@ + t.status@ + " title="@ + t.title@ + "\n"@
}

pub open spec fn brief_lines(s: Seq<TaskBrief>) -> Seq<char>
    decreases s.len(),
{
    if s.len() == 0 {
        Seq::empty()
    } else {
        brief_lines(s.drop_last()) + brief_line(s.last())
    }
}

/// The message for a display id that several tasks hold.
pub open spec fn ambiguous_msg(raw: Seq<char>, matches: Seq<TaskBrief>) -> Seq<char> {
    "task id "@ + raw + " is ambiguous ("@ + nat_to_dec(matches.len())
        + " matches) — re-run with the full uuid shown below to pick one:\n"@ + brief_lines(matches)
}

/// The error for a reference that no task matches.
pub fn not_found_error(raw: &str) -> (e: CliError)
    ensures
        is_user_error(e, not_found_msg(raw@)),
{
    let mut m = "task ".to_string();
    push_str(&mut m, raw);
    push_str(&mut m, " not found");
    CliError::User(m)
}

/// The error for a reference that is neither a display id nor a uuid.
pub fn not_a_ref_error(raw: &str) -> (e: CliError)
    ensures
        is_user_error(e, not_a_ref_msg(raw@)),
{
    let mut m = "'".to_string();
    push_str(&mut m, raw);
    push_str(&mut m, "' is not a task id or UUID");
    CliError::User(m)
}

/// Picks the task a display id denotes among the tasks that hold it
/// (ordered by uuid): none is an error, one is the answer, several are an
/// error that lists them all so that a uuid can be given instead.
pub fn pick_by_display_id(raw: &str, matches: &Vec<TaskBrief>) -> (r: Result<usize, CliError>)
    ensures
        matches@.len() == 0 ==> (r matches Err(e) && is_user_error(e, not_found_msg(raw@))),
        matches@.len() == 1 ==> r == Ok::<usize, CliError>(0),
        matches@.len() > 1 ==> (r matches Err(e) && is_user_error(e, ambiguous_msg(raw@, matches@))),
{
    if matches.len() == 0 {
        return Err(not_found_error(raw));
    }
    if matches.len() == 1 {
        return Ok(0);
    }
    let mut m = "task id ".to_string();
    push_str(&mut m, raw);
    push_str(&mut m, " is ambiguous (");
    let n = u64_to_string(matches.len() as u64);
    push_str(&mut m, n.as_str());
    push_str(&mut m, " matches) — re-run with the full uuid shown below to pick one:\n");
    let ghost head = m@;
    let mut i: usize = 0;
    while i < matches.len()
        invariant
            i <= matches@.len(),
            m@ == head + brief_lines(matches@.take(i as int)),
        decreases matches@.len() - i,
    {
        let t = &matches[i];
        let ghost before = m@;
        push_str(&mut m, "  id=");
        let id = i64_to_string(t.id);
        push_str(&mut m, id.as_str());
        push_str(&mut m, " uuid=");
        push_str(&mut m, t.uuid.as_str());
        push_str(&mut m, " status=");
        push_str(&mut m, t.status.as_str());
        push_str(&mut m, " title=");
        push_str(&mut m, t.title.as_str());
        push_str(&mut m, "\n");
        assert(m@ =~= before + brief_line(*t));
        assert(matches@.take(i + 1).drop_last() =~= matches@.take(i as int));
        assert(m@ =~= head + brief_lines(matches@.take(i + 1)));
        i = i + 1;
    }
    assert(matches@.take(matches@.len() as int) =~= matches@);
    assert(m@ =~= ambiguous_msg(raw@, matches@));
    Err(CliError::User(m))
}

/// A uuid reference resolves to the task found under it, if any.
pub fn pick_by_uuid(raw: &str, found: bool) -> (r: Result<(), CliError>)
    ensures
        found <==> r is Ok,
        r matches Err(e) ==> is_user_error(e, not_found_msg(raw@)),
{
    if found { Ok(()) } else { Err(not_found_error(raw)) }
}

} // verus!
