//! Where the database is: the `--db` flag, else a non-empty
//! `TODO_SQLITE_CLI_DB`, else the first line of the nearest
//! `.todo-sqlite-cli` marker file up from the working directory.
use vstd::prelude::*;
use crate::error::{CliError, is_user_error};
use crate::strs::opt_view;
use crate::text::{push_str, trim, trim_spec};

verus! {

/// The name of the marker file.
pub fn marker_filename() -> (s: &'static str)
    ensures
        s@ == ".todo-sqlite-cli"@,
{
    ".todo-sqlite-cli"
}

/// The environment variable naming the database.
pub fn env_var() -> (s: &'static str)
    ensures
        s@ == "TODO_SQLITE_CLI_DB"@,
{
    "TODO_SQLITE_CLI_DB"
}

/// The path given by the flag or the environment, before any marker file
/// is looked for: the flag wins; an empty variable counts as unset.
pub open spec fn explicit_path(flag: Option<Seq<char>>, env: Option<Seq<char>>) -> Option<Seq<char>> {
    match flag {
        Some(f) => Some(f),
        None => match env {
            Some(e) => if e.len() > 0 { Some(e) } else { None },
            None => None,
        },
    }
}

pub fn db_path_choice(flag: &Option<String>, env: &Option<String>) -> (r: Option<String>)
    ensures
        opt_view(r) == explicit_path(opt_view(*flag), opt_view(*env)),
{
    match flag {
        Some(f) => Some(f.clone()),
        None => match env {
            Some(e) => if e.unicode_len() > 0 { Some(e.clone()) } else { None },
            None => None,
        },
    }
}

/// The first line of a text (up to the first newline).
pub open spec fn first_line(s: Seq<char>) -> Seq<char>
    decreases s.len(),
{
    if s.len() == 0 || s[0] == '\n' {
        Seq::empty()
    } else {
        seq![s[0]] + first_line(s.drop_first())
    }
}

proof fn lemma_first_line(s: Seq<char>, i: int)
    requires
        0 <= i <= s.len(),
        forall|j: int| 0 <= j < i ==> s[j] != '\n',
        i == s.len() || s[i] == '\n',
    ensures
        first_line(s) == s.subrange(0, i),
    decreases s.len(),
{
    if s.len() > 0 && s[0] != '\n' {
        assert forall|j: int| 0 <= j < i - 1 implies s.drop_first()[j] != '\n' by {
            assert(s.drop_first()[j] == s[j + 1]);
        }
        if i < s.len() {
            assert(s.drop_first()[i - 1] == s[i]);
        }
        lemma_first_line(s.drop_first(), i - 1);
        assert(seq![s[0]] + s.drop_first().subrange(0, i - 1) =~= s.subrange(0, i));
    } else {
        assert(s.subrange(0, i) =~= Seq::<char>::empty());
    }
}

/// The database path a marker file names: its first line, trimmed; none
/// when that is blank.
pub fn marker_db_path(content: &str) -> (r: Option<String>)
    ensures
        match r {
            Some(p) => p@ == trim_spec(first_line(content@)) && p@.len() > 0,
            None => trim_spec(first_line(content@)).len() == 0,
        },
{
    let n = content.unicode_len();
    let mut i: usize = 0;
    while i < n && content.get_char(i) != '\n'
        invariant
            n == content@.len(),
            i <= n,
            forall|j: int| 0 <= j < i ==> content@[j] != '\n',
        decreases n - i,
    {
        i = i + 1;
    }
    proof { lemma_first_line(content@, i as int); }
    let line = content.substring_char(0, i);
    let t = trim(line);
    if t.unicode_len() == 0 { None } else { Some(t) }
}

/// The text of a marker file naming `db`: the path and a newline.
pub fn marker_contents(db: &str) -> (r: String)
    ensures
        r@ == db@ + "\n"@,
{
    let mut r = db.to_string();
    push_str(&mut r, "\n");
    r
}

/// Law: a marker written for a database path that is one line with no
/// surrounding whitespace reads back as that path.
pub proof fn law_marker_round_trip(p: Seq<char>)
    requires
        p.len() > 0,
        trim_spec(p) == p,
        forall|i: int| 0 <= i < p.len() ==> p[i] != '\n',
    ensures
        first_line(p + "\n"@) == p,
        trim_spec(first_line(p + "\n"@)) == p,
{
    reveal_strlit("\n");
    let s = p + "\n"@;
    assert forall|j: int| 0 <= j < p.len() implies s[j] != '\n' by {
        assert(s[j] == p[j]);
    }
    assert(s[p.len() as int] == '\n');
    lemma_first_line(s, p.len() as int);
    assert(s.subrange(0, p.len() as int) =~= p);
}

/// `marker file <path> is empty; first line must be the DB path`.
pub open spec fn empty_marker_msg(path: Seq<char>) -> Seq<char> {
    "marker file "@ + path + " is empty; first line must be the DB path"@
}

pub fn empty_marker_error(path: &str) -> (e: CliError)
    ensures
        is_user_error(e, empty_marker_msg(path@)),
{
    let mut m = "marker file ".to_string();
    push_str(&mut m, path);
    push_str(&mut m, " is empty; first line must be the DB path");
    CliError::User(m)
}

/// The error when no database can be found.
pub fn no_database_error() -> (e: CliError)
    ensures
        is_user_error(e, "no database found. Set --db, $TODO_SQLITE_CLI_DB, or run `todo-sqlite-cli init` to create one."@),
{
    CliError::User("no database found. Set --db, $TODO_SQLITE_CLI_DB, or run `todo-sqlite-cli init` to create one.".to_string())
}

} // verus!
