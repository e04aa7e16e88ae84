use vstd::prelude::*;

verus! {

/// The two classes of failure the tool reports: a mistake by the caller
/// (exit code 1) or a failure of the environment (exit code 2).
#[derive(Debug)]
pub enum CliError {
    User(String),
    System(String),
}

impl CliError {
    /// Process exit code for this error.
    pub fn exit_code(&self) -> (code: i32)
        ensures
            code == (match self {
                CliError::User(_) => 1i32,
                CliError::System(_) => 2i32,
            }),
    {
        match self {
            CliError::User(_) => 1,
            CliError::System(_) => 2,
        }
    }

    /// The human-readable message carried by the error.
    pub fn message(&self) -> (m: &str)
        ensures
            m@ == (match self {
                CliError::User(s) => s@,
                CliError::System(s) => s@,
            }),
    {
        match self {
            CliError::User(m) => m.as_str(),
            CliError::System(m) => m.as_str(),
        }
    }
}

/// `e` is a user error with message `m`.
pub open spec fn is_user_error(e: CliError, m: Seq<char>) -> bool {
    match e {
        CliError::User(s) => s@ == m,
        CliError::System(_) => false,
    }
}

/// `e` is a system error with message `m`.
pub open spec fn is_system_error(e: CliError, m: Seq<char>) -> bool {
    match e {
        CliError::System(s) => s@ == m,
        CliError::User(_) => false,
    }
}

/// The error every command but `init` gives on a database without tables.
pub fn not_initialized() -> (e: CliError)
    ensures
        is_user_error(e, "database is not initialized; run `todo-sqlite-cli init` first"@),
{
    CliError::User("database is not initialized; run `todo-sqlite-cli init` first".to_string())
}

/// A user error with the given message.
pub fn user(msg: String) -> (e: CliError)
    ensures
        e == CliError::User(msg),
{
    CliError::User(msg)
}

/// A system error with the given message.
pub fn system(msg: String) -> (e: CliError)
    ensures
        e == CliError::System(msg),
{
    CliError::System(msg)
}

} // verus!
